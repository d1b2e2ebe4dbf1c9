use simple_bot::decimal::{whole, Dec};
use simple_bot::feeds::FeedPrices;
use simple_bot::figure::Figure;
use simple_bot::ids::Word;
use simple_bot::market::Market;
use simple_bot::strategies::bayesian::{
    checked_quote_market, evaluate_markets, feed_wait, kelly_to_amount, profitable_sale,
    quote_market, record_signal, reference_prices, remaining_after, resolve_closed,
    session_balance, signal_for, Appraisal, NoToken, NoTokenForUp, Quote, EVEN_PRICE, KELLY_FRACTION, MAX_BUY_PRICE, MIN_DISCREPANCY,
    MIN_MARKET_PRICE, PROFIT_THRESHOLD, TOP_PRICE,
};
use simple_bot::sizing::size_order;
use simple_bot::strategies::{spendable, Uncountable};
use simple_bot::tracker::{create_tracker, Position};
use simple_bot::trading::Side;

fn d(mantissa: i128, scale: u32) -> Dec {
    Dec { mantissa, scale }
}

fn f(x: f64) -> Figure {
    Figure::from_bits(x.to_bits())
}

fn market(prices: &[f64]) -> Market {
    Market {
        id: "m".to_string(),
        question: Some("Q".to_string()),
        slug: None,
        condition_id: Some(Word::small(77)),
        closed: Some(false),
        token_ids: vec![Word::small(1), Word::small(2)],
        outcomes: vec!["Up".to_string(), "Down".to_string()],
        outcome_prices: prices.iter().map(|p| Some(f(*p))).collect(),
        best_bid: None,
        end: None,
    }
}

fn listed(id: u64, prices: &[f64]) -> Market {
    let mut m = market(prices);
    m.condition_id = Some(Word::small(id));
    m
}

fn quote(id: u64, price: f64) -> Quote {
    Quote {
        token_up: Word::small(1),
        token_down: Some(Word::small(2)),
        condition_id: Some(Word::small(id)),
        question: "Q".to_string(),
        price: f(price),
    }
}

fn appraisal(our_prob: f64, price: f64, up_share: Dec, down_share: Dec) -> Appraisal {
    let discrepancy = our_prob - price;
    Appraisal {
        our_prob: f(our_prob),
        discrepancy: f(discrepancy),
        shortfall: f(-discrepancy),
        discrepancy_pct: f(discrepancy * 100.0),
        shortfall_pct: f(-discrepancy * 100.0),
        down_prob: f(1.0 - our_prob),
        down_price: f(1.0 - price),
        up_kelly: f(0.0484),
        down_kelly: f(0.07),
        up_share,
        down_share,
    }
}

#[test]
fn constants_are_what_they_say() {
    assert_eq!(f64::from_bits(MIN_DISCREPANCY), 0.03);
    assert_eq!(f64::from_bits(KELLY_FRACTION), 0.25);
    assert_eq!(f64::from_bits(MIN_MARKET_PRICE), 0.05);
    assert_eq!(f64::from_bits(MAX_BUY_PRICE), 0.95);
    assert_eq!(f64::from_bits(EVEN_PRICE), 0.5);
    assert_eq!(f64::from_bits(TOP_PRICE), 1.0);
    assert_eq!(f64::from_bits(PROFIT_THRESHOLD), 1.02);
}

#[test]
fn quotes_name_both_tokens_and_the_price_of_up() {
    let q = quote_market(&market(&[0.6, 0.4]), &vec![]).unwrap();
    assert_eq!(q.token_up, Word::small(1));
    assert_eq!(q.token_down, Some(Word::small(2)));
    assert_eq!(q.price, f(0.6));
    assert_eq!(q.question, "Q");
    let mut m = market(&[0.6, 0.4]);
    m.outcomes.reverse();
    m.question = None;
    let q = quote_market(&m, &vec![]).unwrap();
    assert_eq!(q.token_up, Word::small(2));
    assert_eq!(q.token_down, Some(Word::small(1)));
    assert_eq!(q.price, f(0.4));
    assert_eq!(q.question, "?");
}

#[test]
fn prices_fall_back_to_the_bid_the_first_price_and_one_half() {
    let mut m = market(&[]);
    assert_eq!(quote_market(&m, &vec![]).unwrap().price, f(0.5));
    m.best_bid = Some(f(0.7));
    assert_eq!(quote_market(&m, &vec![]).unwrap().price, f(0.7));
    m.outcome_prices = vec![Some(f(0.2)), None];
    m.outcomes.reverse();
    assert_eq!(quote_market(&m, &vec![]).unwrap().price, f(0.7));
    m.best_bid = None;
    assert_eq!(quote_market(&m, &vec![]).unwrap().price, f(0.2));
    m.outcomes = vec![];
    m.best_bid = Some(f(0.7));
    assert_eq!(quote_market(&m, &vec![]).unwrap().price, f(0.2));
    m.outcome_prices = vec![];
    assert_eq!(quote_market(&m, &vec![]).unwrap().price, f(0.5));
}

#[test]
fn markets_with_extreme_prices_are_left_alone() {
    assert!(quote_market(&market(&[0.049, 0.9]), &vec![]).is_none());
    assert!(quote_market(&market(&[0.951, 0.0]), &vec![]).is_none());
    assert!(quote_market(&market(&[7.0, 0.0]), &vec![]).is_none());
    assert!(quote_market(&market(&[-1.0, 0.0]), &vec![]).is_none());
    assert!(quote_market(&market(&[f64::NAN, 0.0]), &vec![]).is_none());
    assert!(quote_market(&market(&[0.05, 0.9]), &vec![]).is_some());
    assert!(quote_market(&market(&[0.95, 0.9]), &vec![]).is_some());
}

#[test]
fn held_markets_and_markets_without_two_tokens_are_not_quoted() {
    let held = vec![Word::small(5), Word::small(77)];
    assert!(quote_market(&market(&[0.6, 0.4]), &held).is_none());
    let mut m = market(&[0.6, 0.4]);
    m.condition_id = None;
    assert!(quote_market(&m, &held).is_some());
    m.token_ids.pop();
    assert!(quote_market(&m, &vec![]).is_none());
}

#[test]
fn a_market_without_a_token_for_up_is_an_error() {
    let mut m = market(&[0.6, 0.4]);
    m.outcomes = vec!["A".to_string(), "B".to_string(), "Up".to_string()];
    assert_eq!(checked_quote_market(&m, &vec![]).err(), Some(NoTokenForUp));
    assert!(checked_quote_market(&m, &vec![Word::small(77)]).unwrap().is_none());
    m.token_ids.push(Word::small(3));
    let q = checked_quote_market(&m, &vec![]).unwrap().unwrap();
    assert_eq!(q.token_up, Word::small(3));
    assert_eq!(q.token_down, None);
}

#[test]
fn kelly_amounts_are_kept_in_bounds() {
    let (one, ten, hundred) = (whole(1), whole(10), whole(100));
    assert_eq!(kelly_to_amount(d(484, 4), hundred, one, ten), d(48400, 4));
    assert_eq!(kelly_to_amount(d(5, 1), hundred, one, ten), ten);
    assert_eq!(kelly_to_amount(d(1, 3), hundred, one, ten), one);
    assert_eq!(kelly_to_amount(whole(0), hundred, one, ten), one);
    assert_eq!(kelly_to_amount(whole(1), d(5, 1), one, ten), d(5, 1));
}

#[test]
fn an_edge_above_three_percent_is_bought() {
    let a = appraisal(0.677, 0.6, d(484, 4), whole(0));
    let s = signal_for(&quote(7, 0.6), &a, whole(100)).unwrap();
    assert_eq!(s.token_id, Word::small(1));
    assert_eq!(s.condition_id, Some(Word::small(7)));
    assert_eq!(s.side, Side::Buy);
    assert!(s.bought_up);
    assert_eq!(s.our_prob, f(0.677));
    assert_eq!(s.market_price, f(0.6));
    assert_eq!(s.amount_usdc, d(48400, 4));
    assert_eq!(s.kelly_fraction, f(0.0484));
}

#[test]
fn a_shortfall_above_three_percent_buys_down() {
    let a = appraisal(0.5, 0.6, whole(0), d(7, 2));
    let s = signal_for(&quote(7, 0.6), &a, whole(100)).unwrap();
    assert_eq!(s.token_id, Word::small(2));
    assert!(!s.bought_up);
    assert_eq!(s.our_prob, f(0.5));
    assert_eq!(s.market_price, f(1.0 - 0.6));
    assert_eq!(s.amount_usdc, d(700, 2));
    assert_eq!(s.kelly_fraction, f(0.07));
}

#[test]
fn small_edges_and_small_bankrolls_are_not_traded() {
    let level = appraisal(0.62, 0.6, d(484, 4), d(484, 4));
    assert!(signal_for(&quote(7, 0.6), &level, whole(100)).is_none());
    let low = appraisal(0.58, 0.6, d(484, 4), d(484, 4));
    assert!(signal_for(&quote(7, 0.6), &low, whole(100)).is_none());
    let edge = appraisal(0.7, 0.6, d(484, 4), d(484, 4));
    assert!(signal_for(&quote(7, 0.6), &edge, d(99, 1)).is_none());
    assert!(signal_for(&quote(7, 0.6), &edge, whole(10)).is_some());
    assert!(signal_for(&quote(7, 0.6), &edge, whole(-5)).is_none());
}

#[test]
fn an_iteration_starts_two_trades_at_most() {
    let markets: Vec<Market> = [1, 2, 3, 4].iter().map(|id| listed(*id, &[0.6, 0.4])).collect();
    let edge = Some(appraisal(0.7, 0.6, d(484, 4), d(484, 4)));
    let level = Some(appraisal(0.6, 0.6, d(484, 4), d(484, 4)));
    let appraisals = vec![level, edge, edge, edge];
    let signals = evaluate_markets(&markets, &vec![], &appraisals, 1, whole(100)).unwrap();
    let ids: Vec<Option<Word>> = signals.iter().map(|s| s.condition_id).collect();
    assert_eq!(ids, vec![Some(Word::small(2)), Some(Word::small(3))]);
    let none = evaluate_markets(&markets, &vec![], &appraisals, 0, whole(100)).unwrap();
    assert!(none.is_empty());
}

#[test]
fn held_and_unfairly_priced_markets_are_left_alone() {
    let markets = vec![
        listed(1, &[0.6, 0.4]),
        listed(2, &[0.04, 0.96]),
        listed(3, &[0.96, 0.04]),
        listed(4, &[0.6, 0.4]),
        listed(5, &[0.6, 0.4]),
    ];
    let up = Some(appraisal(0.7, 0.6, d(484, 4), d(484, 4)));
    let down = Some(appraisal(0.5, 0.6, d(484, 4), d(484, 4)));
    let appraisals = vec![up, up, up, None, down];
    let held = vec![Word::small(1)];
    let signals = evaluate_markets(&markets, &held, &appraisals, 1, whole(100)).unwrap();
    assert_eq!(signals.len(), 1);
    assert_eq!(signals[0].condition_id, Some(Word::small(5)));
    assert_eq!(signals[0].token_id, Word::small(2));
    assert!(!signals[0].bought_up);
}

#[test]
fn a_market_without_a_token_is_an_error_once_it_is_reached() {
    let mut odd = listed(9, &[0.6, 0.4]);
    odd.outcomes = vec!["a".to_string(), "b".to_string(), "up".to_string()];
    let edge = Some(appraisal(0.7, 0.6, d(484, 4), d(484, 4)));
    let down = Some(appraisal(0.5, 0.6, d(484, 4), d(484, 4)));
    let first = vec![odd.clone()];
    let r = evaluate_markets(&first, &vec![], &vec![edge], 1, whole(100));
    assert!(matches!(r, Err(NoToken)));
    assert!(evaluate_markets(&first, &vec![], &vec![edge], 0, whole(100)).is_ok());
    let held = vec![Word::small(9)];
    assert!(evaluate_markets(&first, &held, &vec![edge], 1, whole(100)).is_ok());
    let last = vec![listed(1, &[0.6, 0.4]), listed(2, &[0.6, 0.4]), odd.clone()];
    let r = evaluate_markets(&last, &vec![], &vec![edge, edge, edge], 1, whole(100));
    assert_eq!(r.unwrap().len(), 2);
    odd.token_ids.push(Word::small(3));
    let third = vec![odd];
    let r = evaluate_markets(&third, &vec![], &vec![edge], 1, whole(100)).unwrap();
    assert_eq!(r[0].token_id, Word::small(3));
    let r = evaluate_markets(&third, &vec![], &vec![down], 1, whole(100));
    assert!(matches!(r, Err(NoToken)));
}

#[test]
fn trades_stay_within_a_tenth_of_the_bankroll() {
    for bankroll in [d(10, 0), d(45_418, 3), d(100, 0), d(99_999, 2)] {
        let edge = appraisal(0.9, 0.6, whole(1), whole(1));
        let s = signal_for(&quote(1, 0.6), &edge, bankroll).unwrap();
        assert_eq!(s.amount_usdc, d(bankroll.mantissa, bankroll.scale + 1));
    }
}

#[test]
fn reference_prices_are_reset_every_five_minutes() {
    let start = FeedPrices::default();
    let mut now = FeedPrices::default();
    now.binance_btc = Some(f(1.0));
    assert_eq!(reference_prices(&now, &start, 299), (start, false));
    assert_eq!(reference_prices(&now, &start, 300), (now, true));
    assert_eq!(feed_wait(&now), Some(5));
    now.chainlink_eth = Some(f(2.0));
    assert_eq!(feed_wait(&now), None);
}

#[test]
fn the_first_wallet_balance_becomes_the_start_balance() {
    let mut t = create_tracker("x".to_string());
    let mut synced = false;
    assert_eq!(session_balance(&mut t, None, &mut synced), Some(whole(100)));
    assert!(!synced);
    assert_eq!(session_balance(&mut t, Some(whole(7)), &mut synced), Some(whole(7)));
    assert!(synced);
    assert_eq!(session_balance(&mut t, Some(whole(9)), &mut synced), Some(whole(9)));
    assert_eq!(t.summary().start_balance, whole(7));
    assert_eq!(session_balance(&mut t, None, &mut synced), Some(whole(7)));
}

#[test]
fn executed_orders_lower_what_remains() {
    assert_eq!(remaining_after(whole(10), d(484, 2), true), Some(d(516, 2)));
    assert_eq!(remaining_after(whole(10), d(484, 2), false), Some(whole(10)));
}

#[test]
fn signals_are_written_down() {
    let mut t = create_tracker("x".to_string());
    let a = appraisal(0.677, 0.6, d(484, 4), whole(0));
    let s = signal_for(&quote(7, 0.6), &a, whole(100)).unwrap();
    let r = record_signal(&mut t, "now".to_string(), &s, d(484, 2), "0.6", true, false);
    assert_eq!(r.mode, "bayesian");
    assert_eq!(r.side, "BUY");
    assert_eq!(r.amount_usdc, "4.84");
    assert!(!r.executed);
    assert!(record_signal(&mut t, "now".to_string(), &s, d(484, 2), "0.6", true, true).executed);
    assert_eq!(t.open_condition_ids(), vec![Word::small(7), Word::small(7)]);
}

fn position(up: bool, amount: Dec, price_dec: Dec) -> Position {
    Position {
        condition_id: Word::small(77),
        token_id: Word::small(1),
        market: "Q".to_string(),
        amount_usdc: amount,
        price: f(0.5),
        price_dec,
        bought_up: up,
    }
}

#[test]
fn positions_are_sold_at_two_percent_profit() {
    let floor = f(0.5 * 1.02);
    let up = position(true, whole(5), d(5, 1));
    let sale = profitable_sale(&vec![market(&[0.51, 0.49])], &up, floor).unwrap().unwrap();
    assert_eq!(sale.shares, whole(10));
    assert_eq!(sale.price, f(0.51));
    assert!(profitable_sale(&vec![market(&[0.509, 0.6])], &up, floor).unwrap().is_none());
    let down = position(false, whole(1), d(3, 1));
    let sale = profitable_sale(&vec![market(&[0.1, 0.6])], &down, floor).unwrap().unwrap();
    assert_eq!(sale.shares, d(3_333_333, 6));
    assert_eq!(sale.price, f(0.6));
}

#[test]
fn positions_without_a_listed_price_are_kept() {
    let floor = f(0.1);
    let up = position(true, whole(5), d(5, 1));
    assert!(profitable_sale(&vec![], &up, floor).unwrap().is_none());
    assert!(profitable_sale(&vec![market(&[0.9])], &up, floor).unwrap().is_none());
    let mut other = market(&[0.9, 0.1]);
    other.condition_id = Some(Word::small(78));
    assert!(profitable_sale(&vec![other], &up, floor).unwrap().is_none());
}

#[test]
fn dust_is_kept_and_shares_without_a_price_are_an_error() {
    let floor = f(0.1);
    let dust = position(true, d(4, 3), d(5, 1));
    assert!(profitable_sale(&vec![market(&[0.9, 0.1])], &dust, floor).unwrap().is_none());
    let free = position(true, whole(5), whole(0));
    assert_eq!(
        profitable_sale(&vec![market(&[0.9, 0.1])], &free, floor).err(),
        Some(Uncountable)
    );
    assert!(profitable_sale(&vec![market(&[0.05, 0.1])], &free, floor).unwrap().is_none());
}

#[test]
fn down_is_wanted_below_the_price() {
    assert!(appraisal(0.50, 0.60, whole(0), whole(0)).wants_down());
    assert!(!appraisal(0.60, 0.50, whole(0), whole(0)).wants_down());
    assert!(!appraisal(0.50, 0.52, whole(0), whole(0)).wants_down());
}

#[test]
fn the_wallet_is_spent_where_it_is_known() {
    let t = create_tracker("f".to_string());
    assert_eq!(spendable(&t, Some(d(1234, 2))), Some(d(1234, 2)));
    assert_eq!(spendable(&t, None), Some(whole(100)));
}

#[test]
fn an_iteration_never_spends_more_than_the_balance() {
    let balance = d(2550, 2);
    let mut left = balance;
    let mut spent: i128 = 0;
    for (wanted, executed) in
        [(d(10, 0), true), (d(5, 0), false), (d(12345678, 6), true), (d(99, 0), true), (d(7, 0), true)]
    {
        if let Some(amount) = size_order(wanted, left) {
            left = remaining_after(left, amount, executed).unwrap();
            if executed {
                spent += amount.mantissa * 10i128.pow(6 - amount.scale);
            }
        }
    }
    assert_eq!(spent, 25_500_000);
    assert_eq!(left.mantissa, 0);
}

#[test]
fn closed_markets_settle_their_positions() {
    let mut t = create_tracker("f".to_string());
    let mut held = market(&[0.6, 0.4]);
    for id in [1u64, 2, 3] {
        t.record_trade(
            "now".to_string(),
            "bayesian",
            "Q",
            Side::Buy,
            whole(10),
            f(0.5),
            "0.5",
            true,
            Some(Word::small(id)),
            Word::small(9),
            true,
        );
    }
    held.condition_id = Some(Word::small(1));
    let mut won = market(&[0.99, 0.01]);
    won.condition_id = Some(Word::small(2));
    let mut lost = market(&[0.01, 0.99]);
    lost.condition_id = Some(Word::small(3));
    assert!(resolve_closed(&mut t, &vec![held, won, lost]));
    assert_eq!(t.open_condition_ids(), vec![Word::small(1)]);
    let s = t.checked_summary().unwrap();
    assert_eq!(s.realized_profit.mantissa, 0);
    assert_eq!(s.balance_remaining, whole(90));
}

#[test]
fn settling_stops_where_a_profit_cannot_be_counted() {
    let mut t = create_tracker("f".to_string());
    for (id, price) in [(1u64, "0.5"), (2, "0"), (3, "0.5")] {
        t.record_trade(
            "now".to_string(),
            "bayesian",
            "Q",
            Side::Buy,
            whole(10),
            f(0.5),
            price,
            true,
            Some(Word::small(id)),
            Word::small(9),
            true,
        );
    }
    let mut markets = vec![];
    for id in [1u64, 2, 3] {
        let mut m = market(&[0.99, 0.01]);
        m.condition_id = Some(Word::small(id));
        markets.push(m);
    }
    assert!(!resolve_closed(&mut t, &markets));
    assert_eq!(t.open_condition_ids(), vec![Word::small(2), Word::small(3)]);
}

#[test]
fn trades_follow_the_model() {
    let markets: Vec<Market> = [1, 2].iter().map(|id| listed(*id, &[0.6, 0.4])).collect();
    let up = Some(appraisal(0.7, 0.6, d(484, 4), d(484, 4)));
    let down = Some(appraisal(0.5, 0.6, d(484, 4), d(484, 4)));
    let level = Some(appraisal(0.6, 0.6, d(484, 4), d(484, 4)));
    let sides = |a: Vec<Option<Appraisal>>| -> Vec<bool> {
        let signals = evaluate_markets(&markets, &vec![], &a, 1, whole(100)).unwrap();
        signals.iter().map(|s| s.bought_up).collect()
    };
    assert_eq!(sides(vec![up, level]), vec![true]);
    assert_eq!(sides(vec![level, down]), vec![false]);
    assert!(sides(vec![level, level]).is_empty());
}
