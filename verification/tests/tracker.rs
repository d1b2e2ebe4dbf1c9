use simple_bot::decimal::{whole, Dec};
use simple_bot::figure::Figure;
use simple_bot::ids::Word;
use simple_bot::tracker::{create_tracker, SessionTracker, RULE};
use simple_bot::trading::Side;

fn d(mantissa: i128, scale: u32) -> Dec {
    Dec { mantissa, scale }
}

fn f(x: f64) -> Figure {
    Figure::from_bits(x.to_bits())
}

fn buy(t: &mut SessionTracker, id: Option<u64>, token: u64, amount: Dec, price: f64, up: bool) {
    t.record_trade(
        "2026-02-16T15:51:05+00:00".to_string(),
        "bayesian",
        "Bitcoin Up or Down",
        Side::Buy,
        amount,
        f(price),
        &price.to_string(),
        false,
        id.map(Word::small),
        Word::small(token),
        up,
    );
}

fn session() -> SessionTracker {
    create_tracker("trades.json".to_string())
}

#[test]
fn a_session_opens_with_100_usdc() {
    let t = session();
    assert_eq!(t.available_balance(), whole(100));
    let s = t.summary();
    assert_eq!(s.trades_count, 0);
    assert_eq!(s.open_invested, whole(0));
    assert_eq!(s.realized_profit, whole(0));
    assert_eq!(s.start_balance, whole(100));
    assert_eq!(s.pnl(), whole(0));
    assert!(t.open_positions().is_empty());
    assert_eq!(t.results_file(), "trades.json");
}

#[test]
fn trades_are_written_down() {
    let mut t = session();
    let r = t.record_trade(
        "now".to_string(),
        "sniper",
        "Q",
        Side::Sell,
        d(4_836_180, 6),
        f(0.6),
        "0.6",
        true,
        None,
        Word::small(9),
        true,
    );
    assert_eq!(r.timestamp, "now");
    assert_eq!(r.mode, "sniper");
    assert_eq!(r.market, "Q");
    assert_eq!(r.side, "SELL");
    assert_eq!(r.amount_usdc, "4.836180");
    assert_eq!(r.price, f(0.6));
    assert!(r.executed);
    assert_eq!(t.summary().trades_count, 1);
    assert!(t.open_positions().is_empty());
    assert_eq!(t.available_balance(), whole(100));
}

#[test]
fn a_new_position_lowers_the_balance_by_its_cost() {
    let mut t = session();
    buy(&mut t, Some(1), 10, whole(5), 0.5, true);
    buy(&mut t, Some(2), 20, d(250, 2), 0.25, false);
    assert_eq!(t.available_balance(), d(9250, 2));
    assert_eq!(t.open_condition_ids(), vec![Word::small(1), Word::small(2)]);
    let p = t.open_positions();
    assert_eq!(p[1].token_id, Word::small(20));
    assert_eq!(p[1].price_dec, d(25, 2));
    assert!(!p[1].bought_up);
    assert_eq!(t.summary().open_invested, d(750, 2));
    assert_eq!(t.summary().pnl(), d(-750, 2));
}

#[test]
fn a_won_market_pays_one_per_share() {
    let mut t = session();
    buy(&mut t, Some(1), 10, whole(5), 0.5, true);
    t.resolve_market(Word::small(1), true);
    assert_eq!(t.available_balance(), whole(105));
    assert_eq!(t.summary().realized_profit, whole(5));
    assert!(t.open_positions().is_empty());
}

#[test]
fn a_lost_market_leaves_the_balance_as_it_was() {
    let mut t = session();
    buy(&mut t, Some(1), 10, whole(5), 0.5, true);
    let before = t.available_balance();
    t.resolve_market(Word::small(1), false);
    assert_eq!(t.available_balance(), before);
    assert_eq!(t.summary().realized_profit, whole(-5));
}

#[test]
fn down_wins_where_up_does_not() {
    let mut t = session();
    buy(&mut t, Some(1), 10, whole(4), 0.8, false);
    t.resolve_market(Word::small(1), false);
    assert_eq!(t.summary().realized_profit, d(10, 1));
}

#[test]
fn resolving_closes_every_position_of_one_market() {
    let mut t = session();
    buy(&mut t, Some(1), 10, whole(5), 0.5, true);
    buy(&mut t, Some(2), 20, whole(3), 0.5, true);
    buy(&mut t, Some(1), 11, whole(4), 0.5, false);
    t.resolve_market(Word::small(1), true);
    assert_eq!(t.open_condition_ids(), vec![Word::small(2)]);
    assert_eq!(t.summary().realized_profit, whole(1));
}

#[test]
fn resolving_twice_changes_nothing() {
    let mut t = session();
    buy(&mut t, Some(1), 10, whole(5), 0.5, true);
    t.resolve_market(Word::small(1), true);
    t.resolve_market(Word::small(1), true);
    assert_eq!(t.available_balance(), whole(105));
}

#[test]
fn a_sale_brings_in_the_proceeds() {
    let mut t = session();
    buy(&mut t, Some(1), 10, whole(5), 0.5, true);
    assert!(t.close_position_sell(Word::small(1), Word::small(10), "0.6"));
    assert_eq!(t.available_balance(), d(1010, 1));
    assert_eq!(t.summary().realized_profit, d(10, 1));
    assert!(t.open_positions().is_empty());
}

#[test]
fn only_the_first_matching_position_is_sold() {
    let mut t = session();
    buy(&mut t, Some(1), 10, whole(5), 0.5, true);
    buy(&mut t, Some(1), 11, whole(2), 0.5, false);
    buy(&mut t, Some(1), 10, whole(3), 0.5, true);
    assert!(!t.close_position_sell(Word::small(2), Word::small(10), "0.6"));
    assert!(!t.close_position_sell(Word::small(1), Word::small(12), "0.6"));
    assert!(t.close_position_sell(Word::small(1), Word::small(10), "0.6"));
    let left: Vec<Dec> = t.open_positions().iter().map(|p| p.amount_usdc).collect();
    assert_eq!(left, vec![whole(2), whole(3)]);
}

#[test]
fn an_unreadable_sale_price_counts_as_nothing() {
    let mut t = session();
    buy(&mut t, Some(1), 10, whole(5), 0.5, true);
    assert!(t.close_position_sell(Word::small(1), Word::small(10), "NaN"));
    assert_eq!(t.summary().realized_profit, whole(-5));
}

#[test]
fn an_unreadable_price_counts_as_one() {
    let mut t = session();
    buy(&mut t, Some(1), 10, whole(5), f64::NAN, true);
    t.resolve_market(Word::small(1), true);
    assert_eq!(t.summary().realized_profit, whole(0));
}

#[test]
fn a_price_of_zero_cannot_be_settled() {
    let mut t = session();
    buy(&mut t, Some(1), 10, whole(5), 0.0, true);
    assert!(!t.checked_resolve_market(Word::small(1), true));
    assert_eq!(t.checked_close_position_sell(Word::small(1), Word::small(10), "0.6"), None);
    assert_eq!(t.open_positions().len(), 1);
    assert_eq!(t.available_balance(), whole(95));
}

#[test]
fn checked_forms_agree_with_the_others() {
    let mut t = session();
    buy(&mut t, Some(1), 10, whole(5), 0.5, true);
    assert_eq!(t.checked_available_balance(), Some(whole(95)));
    assert_eq!(t.checked_summary().unwrap().balance_remaining, whole(95));
    assert_eq!(t.checked_summary().unwrap().checked_pnl(), Some(whole(-5)));
    assert_eq!(t.checked_close_position_sell(Word::small(1), Word::small(99), "1"), Some(false));
    assert!(t.checked_resolve_market(Word::small(1), true));
    assert_eq!(t.checked_available_balance(), Some(whole(105)));
}

#[test]
fn sums_that_are_too_large_are_none() {
    let huge = d(79_228_162_514_264_337_593_543_950_335, 0);
    let mut t = SessionTracker::new(huge, "x".to_string());
    buy(&mut t, Some(1), 10, huge, 1.0, true);
    buy(&mut t, Some(2), 10, huge, 1.0, true);
    assert_eq!(t.checked_available_balance(), None);
    assert!(t.checked_summary().is_none());
    assert!(t.checked_print_summary().is_none());
}

#[test]
fn the_start_balance_can_be_set() {
    let mut t = session();
    buy(&mut t, Some(1), 10, whole(5), 0.5, true);
    t.set_start_balance(d(45_418, 4));
    assert_eq!(t.available_balance(), d(-4_582, 4));
}

#[test]
fn the_closing_report_lists_the_figures() {
    let mut t = session();
    buy(&mut t, Some(1), 10, d(500, 2), 0.5, true);
    let lines = t.print_summary();
    assert_eq!(
        lines,
        vec![
            RULE.to_string(),
            "  SESSION RESULTS".to_string(),
            RULE.to_string(),
            "  Trades:          1".to_string(),
            "  Open invested:   5.00 USDC".to_string(),
            "  Realized profit: 0 USDC".to_string(),
            "  Start balance:   100 USDC".to_string(),
            "  Balance:         95.00 USDC".to_string(),
            "  Net P&L:         -5.00 USDC".to_string(),
            "  Results file:    trades.json".to_string(),
            RULE.to_string(),
        ]
    );
    assert_eq!(t.checked_print_summary(), Some(lines));
}

#[test]
fn thirds_are_rounded() {
    let mut t = session();
    buy(&mut t, Some(1), 10, whole(1), 0.3, true);
    t.resolve_market(Word::small(1), true);
    assert_eq!(
        t.summary().realized_profit,
        d(23_333_333_333_333_333_333_333_333_333, 28)
    );
}
