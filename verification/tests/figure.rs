use simple_bot::figure::Figure;

fn f(x: f64) -> Figure {
    Figure::from_bits(x.to_bits())
}

fn samples() -> Vec<f64> {
    vec![
        f64::NEG_INFINITY,
        -1.5,
        -f64::MIN_POSITIVE,
        -0.0,
        0.0,
        5e-324,
        0.01,
        0.5,
        1.0,
        1e308,
        f64::INFINITY,
        f64::NAN,
        -f64::NAN,
    ]
}

#[test]
fn comparisons_agree_with_the_hardware() {
    for a in samples() {
        for b in samples() {
            assert_eq!(f(a).lt(f(b)), a < b, "{} < {}", a, b);
            assert_eq!(f(a).le(f(b)), a <= b, "{} <= {}", a, b);
        }
    }
}

#[test]
fn smaller_larger_and_magnitude_agree_with_the_hardware() {
    for a in samples() {
        assert_eq!(f(a).nan(), a.is_nan());
        assert_eq!(f(a).abs().bits, a.abs().to_bits());
        for b in samples() {
            let low = f64::from_bits(f(a).min(f(b)).bits);
            let high = f64::from_bits(f(a).max(f(b)).bits);
            if a.is_nan() && b.is_nan() {
                assert!(low.is_nan() && high.is_nan());
            } else {
                assert!(low == a.min(b), "min {} {}", a, b);
                assert!(high == a.max(b), "max {} {}", a, b);
            }
        }
    }
}

#[test]
fn not_a_number_is_ignored_when_picking() {
    let nan = f(f64::NAN);
    assert_eq!(nan.min(f(2.0)), f(2.0));
    assert_eq!(f(2.0).max(nan), f(2.0));
    assert!(!nan.lt(f(1.0)) && !f(1.0).lt(nan) && !nan.le(nan));
}
