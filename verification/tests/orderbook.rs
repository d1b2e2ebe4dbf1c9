use simple_bot::figure::Figure;
use simple_bot::ids::Word;
use simple_bot::orderbook::{
    apply_update, get_best_ask, get_best_bid, new_state, BookUpdate, Level,
};

fn f(x: f64) -> Figure {
    Figure::from_bits(x.to_bits())
}

fn level(price: f64, size: f64) -> Level {
    Level { price: f(price), size: f(size) }
}

fn token(n: u64) -> Word {
    Word { l0: n, l1: 1, l2: 2, l3: 3 }
}

fn update(n: u64, bids: Vec<Level>, asks: Vec<Level>) -> BookUpdate {
    BookUpdate { asset_id: token(n), bids, asks }
}

#[test]
fn a_new_state_knows_nothing() {
    let state = new_state();
    assert_eq!(get_best_bid(&state, token(1)), None);
    assert_eq!(get_best_ask(&state, token(1)), None);
}

#[test]
fn the_best_levels_are_read_back() {
    let mut state = new_state();
    apply_update(
        &mut state,
        &update(
            1,
            vec![level(0.40, 10.0), level(0.45, 20.0)],
            vec![level(0.60, 5.0), level(0.55, 7.0)],
        ),
    );
    assert_eq!(get_best_bid(&state, token(1)), Some((f(0.45), f(20.0))));
    assert_eq!(get_best_ask(&state, token(1)), Some((f(0.55), f(7.0))));
}

#[test]
fn updates_replace_both_sides_of_one_token() {
    let mut state = new_state();
    apply_update(&mut state, &update(1, vec![level(0.4, 1.0)], vec![level(0.6, 1.0)]));
    apply_update(&mut state, &update(2, vec![level(0.3, 2.0)], vec![level(0.7, 2.0)]));
    apply_update(&mut state, &update(1, vec![], vec![level(0.55, 5.0)]));
    assert_eq!(get_best_bid(&state, token(1)), None);
    assert_eq!(get_best_ask(&state, token(1)), Some((f(0.55), f(5.0))));
    assert_eq!(get_best_bid(&state, token(2)), Some((f(0.3), f(2.0))));
    assert_eq!(get_best_ask(&state, token(2)), Some((f(0.7), f(2.0))));
}

#[test]
fn tokens_differ_in_every_limb() {
    let mut state = new_state();
    apply_update(&mut state, &update(1, vec![level(0.4, 1.0)], vec![]));
    for other in [
        Word { l0: 2, l1: 1, l2: 2, l3: 3 },
        Word { l0: 1, l1: 0, l2: 2, l3: 3 },
        Word { l0: 1, l1: 1, l2: 0, l3: 3 },
        Word { l0: 1, l1: 1, l2: 2, l3: 0 },
    ] {
        assert_eq!(get_best_bid(&state, other), None);
    }
}
