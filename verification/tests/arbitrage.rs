use simple_bot::decimal::{whole, Dec};
use simple_bot::figure::Figure;
use simple_bot::ids::Word;
use simple_bot::market::Market;
use simple_bot::orderbook::{apply_update, new_state, BookUpdate, Level, OrderbookState};
use simple_bot::strategies::arbitrage::{
    asset_ids, binary_targets, check_arbitrage, check_is_due, leg_amount, position_size,
    record_arbitrage, ArbitrageSide, Offer, BUY_BELOW, LARGEST_SIZE, MAX_POSITION_USDC,
    MIN_POSITION_USDC, SELL_ABOVE, SMALLEST_SIZE,
};
use simple_bot::tracker::create_tracker;
use simple_bot::trading::Side;

fn f(x: f64) -> Figure {
    Figure::from_bits(x.to_bits())
}

fn d(mantissa: i128, scale: u32) -> Dec {
    Dec { mantissa, scale }
}

fn market(id: &str, tokens: &[u64]) -> Market {
    Market {
        id: id.to_string(),
        question: None,
        slug: None,
        condition_id: None,
        closed: Some(false),
        token_ids: tokens.iter().map(|t| Word::small(*t)).collect(),
        outcomes: vec![],
        outcome_prices: vec![],
        best_bid: None,
        end: None,
    }
}

fn books(yes: (Option<f64>, Option<f64>), no: (Option<f64>, Option<f64>)) -> OrderbookState {
    let side = |p: Option<f64>| {
        p.into_iter().map(|p| Level { price: f(p), size: f(100.0) }).collect::<Vec<Level>>()
    };
    let mut state = new_state();
    for (token, (bid, ask)) in [(1, yes), (2, no)] {
        let asset_id = Word::small(token);
        apply_update(&mut state, &BookUpdate { asset_id, bids: side(bid), asks: side(ask) });
    }
    state
}

fn offer(sum: f64, profit: f64, size: Option<Dec>) -> Offer {
    Offer { sum: f(sum), profit: f(profit), depth: f(50.0), size }
}

#[test]
fn arbitrage_constants_are_what_they_say() {
    assert_eq!(f64::from_bits(BUY_BELOW), 1.0 - 0.02);
    assert_eq!(f64::from_bits(SELL_ABOVE), 1.0 + 0.02);
    assert_eq!(f64::from_bits(MIN_POSITION_USDC), 5.0);
    assert_eq!(f64::from_bits(MAX_POSITION_USDC), 100.0);
}

#[test]
fn markets_with_two_tokens_are_watched() {
    let targets = binary_targets(&vec![
        market("a", &[1, 2]),
        market("b", &[3]),
        market("c", &[4, 5, 6]),
        market("d", &[]),
    ]);
    let seen: Vec<(Word, Word, &str)> =
        targets.iter().map(|t| (t.yes_token, t.no_token, t.market_id.as_str())).collect();
    assert_eq!(
        seen,
        vec![(Word::small(1), Word::small(2), "a"), (Word::small(4), Word::small(5), "c")]
    );
    assert_eq!(
        asset_ids(&targets),
        vec![Word::small(1), Word::small(2), Word::small(4), Word::small(5)]
    );
}

#[test]
fn positions_are_between_five_and_a_hundred() {
    assert_eq!(position_size(f(50.0)), Some(f(50.0)));
    assert_eq!(position_size(f(5.0)), Some(f(5.0)));
    assert_eq!(position_size(f(4.99)), None);
    assert_eq!(position_size(f(2.0)), None);
    assert_eq!(position_size(f(1e9)), Some(f(100.0)));
    assert_eq!(position_size(f(f64::NAN)), Some(f(100.0)));
    assert_eq!(position_size(f(-1.0)), None);
    assert_eq!(f64::from_bits(MIN_POSITION_USDC), SMALLEST_SIZE as f64);
    assert_eq!(f64::from_bits(MAX_POSITION_USDC), LARGEST_SIZE as f64);
}

#[test]
fn offers_without_depth_are_skipped() {
    let state = books((Some(0.6), Some(0.4)), (Some(0.6), Some(0.4)));
    let thin = Offer { depth: f(2.0), ..offer(0.8, 0.2, None) };
    let deep = offer(1.2, 0.2, Some(whole(20)));
    let s = check_arbitrage(&state, Word::small(1), Word::small(2), "m", &thin, &deep).unwrap();
    assert_eq!(s.side, ArbitrageSide::SellBoth);
    assert_eq!(s.size_usdc, whole(20));
    let none = Offer { depth: f(4.99), ..deep };
    assert!(check_arbitrage(&state, Word::small(1), Word::small(2), "m", &thin, &none).is_none());
}

#[test]
fn both_are_bought_below_98_cents() {
    let state = books((None, Some(0.47)), (None, Some(0.50)));
    let buy = offer(0.97, 0.03, Some(d(225, 1)));
    let none = offer(0.0, 0.0, None);
    let s = check_arbitrage(&state, Word::small(1), Word::small(2), "abc", &buy, &none).unwrap();
    assert_eq!(s.side, ArbitrageSide::BuyBoth);
    assert_eq!(s.side.side(), Side::Buy);
    assert_eq!(s.yes_token, Word::small(1));
    assert_eq!(s.no_token, Word::small(2));
    assert_eq!(s.position, f(50.0));
    assert_eq!(s.size_usdc, d(225, 1));
    assert_eq!(s.profit_per_unit, f(0.03));
    assert_eq!(s.market_id, "abc");
    let level = offer(0.98, 0.02, None);
    assert!(check_arbitrage(&state, Word::small(1), Word::small(2), "abc", &level, &none).is_none());
}

#[test]
fn both_are_sold_above_102_cents() {
    let state = books((Some(0.55), Some(0.56)), (Some(0.50), None));
    let buy = offer(0.5, 0.5, None);
    let sell = offer(1.05, 0.05, None);
    let s = check_arbitrage(&state, Word::small(1), Word::small(2), "m", &buy, &sell).unwrap();
    assert_eq!(s.side, ArbitrageSide::SellBoth);
    assert_eq!(s.side.side(), Side::Sell);
    assert_eq!(s.size_usdc, whole(5));
    assert_eq!(s.profit_per_unit, f(0.05));
    let level = offer(1.02, 0.02, None);
    assert!(check_arbitrage(&state, Word::small(1), Word::small(2), "m", &buy, &level).is_none());
}

#[test]
fn buying_comes_before_selling_and_unknown_books_are_ignored() {
    let state = books((Some(0.6), Some(0.4)), (Some(0.6), Some(0.4)));
    let buy = offer(0.8, 0.2, Some(whole(10)));
    let sell = offer(1.2, 0.2, Some(whole(20)));
    let s = check_arbitrage(&state, Word::small(1), Word::small(2), "m", &buy, &sell).unwrap();
    assert_eq!(s.side, ArbitrageSide::BuyBoth);
    assert!(check_arbitrage(&state, Word::small(1), Word::small(3), "m", &buy, &sell).is_none());
}

#[test]
fn each_leg_is_half_of_the_position() {
    assert_eq!(leg_amount(whole(100)), whole(50));
    assert_eq!(leg_amount(whole(5)), d(250, 2));
    assert_eq!(leg_amount(d(10_000_001, 6)), d(5_000_000, 6));
    assert_eq!(leg_amount(d(10_000_003, 6)), d(5_000_002, 6));
}

#[test]
fn arbitrages_are_one_trade_in_no_market() {
    let state = books((None, Some(0.47)), (None, Some(0.50)));
    let buy = offer(0.97, 0.03, Some(whole(10)));
    let s = check_arbitrage(&state, Word::small(1), Word::small(2), "abc", &buy, &buy).unwrap();
    let mut t = create_tracker("x".to_string());
    let r = record_arbitrage(&mut t, "now".to_string(), &s, "0.03", true, true, true);
    assert_eq!(r.mode, "arbitrage");
    assert_eq!(r.market, "abc");
    assert_eq!(r.side, "BUY");
    assert_eq!(r.price, f(0.03));
    assert!(r.executed);
    assert!(t.open_positions().is_empty());
    for (yes, no, live) in [(false, true, true), (true, false, true), (true, true, false)] {
        let r = record_arbitrage(&mut t, "now".to_string(), &s, "0.03", yes, no, live);
        assert!(!r.executed);
    }
}

#[test]
fn books_are_checked_every_hundred_updates() {
    assert!(!check_is_due(1));
    assert!(!check_is_due(99));
    assert!(check_is_due(100));
    assert!(check_is_due(200));
}
