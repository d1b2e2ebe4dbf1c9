use simple_bot::decimal::{whole, Dec};
use simple_bot::figure::Figure;
use simple_bot::sizing::{
    balance_report, effective_size, size_order, size_order_from_text, wallet_balance,
    PAPER_WALLET_USDC,
};

fn d(mantissa: i128, scale: u32) -> Dec {
    Dec { mantissa, scale }
}

fn f(x: f64) -> Figure {
    Figure::from_bits(x.to_bits())
}

#[test]
fn orders_are_rounded_to_six_places() {
    assert_eq!(size_order(d(48_361_805, 7), whole(100)), Some(d(4_836_180, 6)));
    assert_eq!(size_order(d(48_361_815, 7), whole(100)), Some(d(4_836_182, 6)));
    assert_eq!(size_order(d(484, 2), whole(100)), Some(d(484, 2)));
}

#[test]
fn orders_are_capped_by_the_balance() {
    assert_eq!(size_order(whole(5), d(45_418, 4)), Some(d(45_418, 4)));
    assert_eq!(size_order(whole(5), whole(5)), Some(whole(5)));
    assert_eq!(size_order(whole(5), d(12_345_678, 7)), Some(d(1_234_568, 6)));
}

#[test]
fn orders_below_one_usdc_are_not_made() {
    assert_eq!(size_order(d(999_999, 6), whole(100)), None);
    assert_eq!(size_order(whole(5), d(99, 2)), None);
    assert_eq!(size_order(whole(5), d(-3, 0)), None);
    assert_eq!(size_order(whole(1), whole(100)), Some(whole(1)));
}

#[test]
fn sizes_are_read_from_text() {
    assert_eq!(size_order_from_text("5.00", whole(100)), Some(d(500, 2)));
    assert_eq!(size_order_from_text("NaN", whole(100)), Some(whole(1)));
    assert_eq!(size_order_from_text("0.50", whole(100)), None);
    assert_eq!(size_order_from_text("150.00", whole(100)), Some(whole(100)));
}

#[test]
fn paper_orders_are_at_most_the_paper_wallet() {
    assert_eq!(f64::from_bits(PAPER_WALLET_USDC), 100.0);
    assert_eq!(effective_size(f(250.0), true), f(100.0));
    assert_eq!(effective_size(f(5.0), true), f(5.0));
    assert_eq!(effective_size(f(250.0), false), f(250.0));
}

#[test]
fn wallet_balances_are_in_millionths() {
    assert_eq!(wallet_balance(whole(4_541_800)), d(45_418, 4));
    assert_eq!(wallet_balance(whole(1)), d(1, 6));
    assert_eq!(wallet_balance(whole(0)), whole(0));
    assert_eq!(wallet_balance(whole(7_000_000)), whole(7));
    assert_eq!(wallet_balance(whole(i64::MAX)), d(9_223_372_036_854_775_807, 6));
    assert_eq!(wallet_balance(d(15, 1)), d(2, 6));
}

#[test]
fn balances_are_reported() {
    assert_eq!(balance_report(Some(whole(4_541_800))), "USDC balance: 4.5418");
    assert_eq!(balance_report(None), "Cannot check balance without POLYMARKET_PRIVATE_KEY");
}
