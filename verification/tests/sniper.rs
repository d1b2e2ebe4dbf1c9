use simple_bot::decimal::{whole, Dec};
use simple_bot::figure::Figure;
use simple_bot::ids::Word;
use simple_bot::market::TargetMarket;
use simple_bot::orderbook::{BookUpdate, Level};
use simple_bot::strategies::sniper::{
    candidate_slugs, gate, scan_wait, shares_to_sell, worth_a_warning, Book, Ending, Gate, Holding,
    Lean, Move, Watch, BTC_5M_VOLATILITY, MAX_ASK, MAX_EDGE, MIN_CONFIDENCE, MIN_EDGE,
    PROFIT_TAKE_THRESHOLD,
};
use simple_bot::strategies::{record_purchase, token_of, Uncountable};
use simple_bot::tracker::create_tracker;

fn f(x: f64) -> Figure {
    Figure::from_bits(x.to_bits())
}

fn d(mantissa: i128, scale: u32) -> Dec {
    Dec { mantissa, scale }
}

fn target() -> TargetMarket {
    TargetMarket {
        condition_id: Word::small(77),
        yes_token_id: Word::small(1),
        no_token_id: Word::small(2),
        end: None,
        question: "Q".to_string(),
    }
}

fn levels(prices: &[f64]) -> Vec<Level> {
    prices.iter().map(|p| Level { price: f(*p), size: f(1.0) }).collect()
}

fn news(token: u64, bids: &[f64], asks: &[f64]) -> BookUpdate {
    BookUpdate { asset_id: Word::small(token), bids: levels(bids), asks: levels(asks) }
}

fn lean(prob: f64, ask: f64) -> Lean {
    Lean { up: true, prob: f(prob), ask: f(ask), token: Word::small(1) }
}

#[test]
fn sniper_constants_are_what_they_say() {
    assert_eq!(f64::from_bits(MIN_CONFIDENCE), 0.90);
    assert_eq!(f64::from_bits(MIN_EDGE), 0.05);
    assert_eq!(f64::from_bits(MAX_EDGE), 0.15);
    assert_eq!(f64::from_bits(MAX_ASK), 0.95);
    assert_eq!(f64::from_bits(PROFIT_TAKE_THRESHOLD), 1.10);
    assert_eq!(f64::from_bits(BTC_5M_VOLATILITY), 200.0);
}

#[test]
fn the_last_levels_are_the_best() {
    let mut book = Book::empty();
    book.update_book_state(&news(1, &[0.3, 0.4, 0.45], &[0.7, 0.6, 0.5]), &target());
    assert_eq!(book.bid_yes, Some(f(0.45)));
    assert_eq!(book.ask_yes, Some(f(0.5)));
    assert_eq!(book.bid_no, None);
    book.update_book_state(&news(2, &[0.2], &[]), &target());
    assert_eq!(book.bid_no, Some(f(0.2)));
    assert_eq!(book.ask_no, None);
    book.update_book_state(&news(1, &[], &[0.55]), &target());
    assert_eq!(book.bid_yes, Some(f(0.45)));
    assert_eq!(book.ask_yes, Some(f(0.55)));
    let before = book;
    book.update_book_state(&news(3, &[0.9], &[0.9]), &target());
    assert_eq!(book, before);
}

#[test]
fn the_winner_is_worth_more() {
    let mut book = Book::empty();
    assert!(book.infer_winning_side(f(9.0), f(9.0)));
    book.bid_no = Some(f(0.4));
    assert!(!book.infer_winning_side(f(9.0), f(9.0)));
    book.ask_yes = Some(f(0.5));
    assert!(book.infer_winning_side(f(0.0), f(9.0)));
    book.ask_no = Some(f(0.8));
    assert!(!book.infer_winning_side(f(9.0), f((0.4 + 0.8) / 2.0)));
    book.bid_yes = Some(f(0.7));
    assert!(book.infer_winning_side(f(0.625), f(0.625)));
    assert!(!book.infer_winning_side(f(0.6), f(0.625)));
}

#[test]
fn the_model_favours_one_side() {
    let mut watch = Watch::start();
    watch.book.ask_yes = Some(f(0.8));
    let up = watch.lean(&target(), f(0.92), f(0.08));
    assert_eq!(up, Lean { up: true, prob: f(0.92), ask: f(0.8), token: Word::small(1) });
    let down = watch.lean(&target(), f(0.5), f(0.5));
    assert_eq!(down, Lean { up: false, prob: f(0.5), ask: f(1.0), token: Word::small(2) });
}

#[test]
fn every_gate_stops_a_purchase() {
    assert_eq!(gate(lean(0.89, 0.8), f(0.09), 100), Gate::LowConfidence);
    assert_eq!(gate(lean(0.90, 0.86), f(0.04), 100), Gate::SmallEdge);
    assert_eq!(gate(lean(0.95, 0.7), f(0.25), 100), Gate::LargeEdge);
    assert_eq!(gate(lean(0.99, 0.95), f(0.05), 100), Gate::BadAsk);
    assert_eq!(gate(lean(0.99, 0.0), f(0.05), 100), Gate::BadAsk);
    assert_eq!(gate(lean(0.95, 0.85), f(0.1), 5), Gate::TooLate);
    assert_eq!(gate(lean(0.95, 0.85), f(0.1), 181), Gate::TooEarly);
    assert_eq!(gate(lean(0.95, 0.85), f(0.1), 180), Gate::Passed);
    assert_eq!(gate(lean(0.95, 0.85), f(0.1), 6), Gate::Passed);
    assert_eq!(gate(lean(0.90, 0.85), f(0.05), 100), Gate::Passed);
}

#[test]
fn a_market_is_bought_into_once() {
    let mut watch = Watch::start();
    let l = lean(0.95, 0.85);
    assert_eq!(watch.decide(l, f(0.1), f(0.0), 100), Move::Buy);
    watch.bought(l, "0.85", whole(5));
    assert_eq!(
        watch.holding,
        Some(Holding {
            up: true,
            token: Word::small(1),
            price: f(0.85),
            price_dec: d(85, 2),
            amount: whole(5)
        })
    );
    for remaining in [6, 50, 100, 180] {
        assert_eq!(watch.decide(l, f(0.1), f(0.935), remaining), Move::Hold);
    }
}

#[test]
fn profits_of_ten_percent_are_taken() {
    let mut watch = Watch::start();
    watch.bought(lean(0.95, 0.85), "0.85", whole(5));
    let floor = f(0.85 * 1.10);
    watch.book.bid_no = Some(f(0.99));
    assert_eq!(watch.decide(lean(0.5, 0.5), f(0.0), floor, 50), Move::Hold);
    watch.book.bid_yes = Some(f(0.93));
    assert_eq!(watch.decide(lean(0.5, 0.5), f(0.0), floor, 50), Move::Hold);
    watch.book.bid_yes = Some(f(0.94));
    assert_eq!(watch.decide(lean(0.5, 0.5), f(0.0), floor, 50), Move::Sell { bid: f(0.94) });
}

#[test]
fn shares_are_counted_to_six_places() {
    let mut h = Holding {
        up: true,
        token: Word::small(1),
        price: f(0.85),
        price_dec: d(85, 2),
        amount: whole(5),
    };
    assert_eq!(shares_to_sell(&h), Ok(d(5_882_353, 6)));
    h.price_dec = whole(0);
    assert_eq!(shares_to_sell(&h), Err(Uncountable));
}

#[test]
fn unreadable_purchase_prices_count_as_one() {
    let mut watch = Watch::start();
    watch.bought(lean(0.95, 0.85), "inf", whole(5));
    assert_eq!(watch.holding.unwrap().price_dec, whole(1));
}

#[test]
fn a_market_ends_with_its_last_second() {
    let mut watch = Watch::start();
    assert_eq!(watch.on_update(&news(1, &[0.4], &[]), &target(), 1), Ending::Running);
    assert_eq!(watch.on_update(&news(1, &[0.5], &[]), &target(), 0), Ending::Flat);
    assert_eq!(watch.book.bid_yes, Some(f(0.5)));
    watch.bought(lean(0.95, 0.85), "0.85", whole(5));
    assert_eq!(watch.on_update(&news(2, &[], &[]), &target(), -3), Ending::Resolve);
    assert_eq!(watch.on_update(&news(2, &[], &[]), &target(), 3), Ending::Running);
}

#[test]
fn lagging_is_no_reason_to_warn() {
    assert!(!worth_a_warning("stream lagged by 5 messages"));
    assert!(worth_a_warning("connection reset"));
}

#[test]
fn two_windows_are_scanned() {
    assert_eq!(
        candidate_slugs(1_771_291_800),
        vec!["btc-updown-5m-1771291800".to_string(), "btc-updown-5m-1771292100".to_string()]
    );
    assert_eq!(scan_wait(true), 2);
    assert_eq!(scan_wait(false), 10);
}

#[test]
fn purchases_are_written_down() {
    let mut t = create_tracker("x".to_string());
    let r = record_purchase(
        &mut t, "now".to_string(), "sniper", &target(), false, whole(5), f(0.85), "0.85", true,
        true,
    );
    assert_eq!(r.mode, "sniper");
    assert_eq!(r.market, "Q");
    assert!(r.executed);
    let p = t.open_positions();
    assert_eq!(p[0].token_id, Word::small(2));
    assert_eq!(p[0].condition_id, Word::small(77));
    assert!(!p[0].bought_up);
    assert_eq!(token_of(&target(), true), Word::small(1));
    let r = record_purchase(
        &mut t, "now".to_string(), "frontload", &target(), true, whole(5), f(0.5), "0.5", true,
        false,
    );
    assert!(!r.executed);
}
