use simple_bot::decimal::{whole, Dec};
use simple_bot::figure::Figure;
use simple_bot::ids::Word;
use simple_bot::market::{Event, Market, TargetMarket};
use simple_bot::strategies::frontload::{
    hold_wait, lookback_price, lookup, market_slug, opening, record_entry, sample, settle, step, Happened,
    Lookup, Opening, Phase, Todo, Unsettled, ENTRY_PRICE, MAX_ENTRY_PRICE, MOMENTUM_THRESHOLD,
};
use simple_bot::tracker::{create_tracker, SessionTracker};
use simple_bot::trading::Side;

fn f(x: f64) -> Figure {
    Figure::from_bits(x.to_bits())
}

#[test]
fn frontload_constants_are_what_they_say() {
    assert_eq!(f64::from_bits(MOMENTUM_THRESHOLD), 20.0);
    assert_eq!(f64::from_bits(MAX_ENTRY_PRICE), 0.55);
    assert_eq!(f64::from_bits(ENTRY_PRICE), 0.50);
    assert!(f64::from_bits(ENTRY_PRICE) <= f64::from_bits(MAX_ENTRY_PRICE));
}

#[test]
fn prices_are_forgotten_after_fifteen_minutes() {
    let mut history: Vec<(u64, Figure)> = vec![];
    sample(&mut history, 1_000, f(1.0));
    sample(&mut history, 1_500, f(2.0));
    sample(&mut history, 1_900, f(3.0));
    assert_eq!(history.len(), 3);
    sample(&mut history, 1_901, f(4.0));
    assert_eq!(history, vec![(1_500, f(2.0)), (1_900, f(3.0)), (1_901, f(4.0))]);
    let mut early: Vec<(u64, Figure)> = vec![];
    sample(&mut early, 5, f(1.0));
    assert_eq!(early, vec![(5, f(1.0))]);
}

#[test]
fn moves_are_measured_from_five_minutes_ago() {
    let history = vec![(1_000, f(1.0)), (1_005, f(2.0)), (1_010, f(3.0))];
    assert_eq!(lookback_price(&history, 1_299), None);
    assert_eq!(lookback_price(&history, 1_300), Some(f(1.0)));
    assert_eq!(lookback_price(&history, 1_309), Some(f(2.0)));
    assert_eq!(lookback_price(&history, 9_999), Some(f(3.0)));
    assert_eq!(lookback_price(&vec![], 9_999), None);
}

#[test]
fn a_window_is_opened_by_its_momentum() {
    let p = Some(f(100.0));
    assert_eq!(opening(None, p, f(50.0), 600, 601), Opening::NoPrice(10));
    assert_eq!(opening(p, None, f(50.0), 600, 601), Opening::NoHistory(10));
    assert_eq!(opening(p, p, f(19.99), 600, 601), Opening::Weak(299));
    assert_eq!(opening(p, p, f(-19.99), 600, 1_000), Opening::Weak(0));
    assert_eq!(opening(p, p, f(0.0), 600, 0), Opening::Weak(300));
    assert_eq!(opening(p, p, f(0.0), u64::MAX - 1, u64::MAX), Opening::Weak(299));
    assert_eq!(opening(p, p, f(20.0), 600, 601), Opening::Buy { up: true });
    assert_eq!(opening(p, p, f(-20.0), 600, 601), Opening::Buy { up: false });
}

#[test]
fn a_market_is_looked_for_twice() {
    assert_eq!(lookup(Some(f(0.5)), 1), Lookup::Found);
    assert_eq!(lookup(None, 1), Lookup::Again(5));
    assert_eq!(lookup(None, 2), Lookup::Missed(250));
}

#[test]
fn no_more_than_55_cents_is_paid() {
    assert_eq!(lookup(Some(f(0.55)), 1), Lookup::Found);
    assert_eq!(lookup(Some(f(0.56)), 1), Lookup::Dear(250));
    assert_eq!(lookup(Some(f(f64::NAN)), 1), Lookup::Dear(250));
    let looking = Phase::Looking { open_ts: 600, up: true, tries: 0 };
    assert_eq!(
        step(looking, Happened::Searched(Some(f(0.551)))),
        Some((Phase::Idle, Todo::Wait(250)))
    );
    assert_eq!(
        step(looking, Happened::Searched(Some(f(0.55)))),
        Some((Phase::Buying { open_ts: 600, up: true }, Todo::Buy { open_ts: 600, up: true }))
    );
}

#[test]
fn purchases_are_written_down_at_half_a_dollar() {
    let target = TargetMarket {
        condition_id: Word::small(7),
        yes_token_id: Word::small(1),
        no_token_id: Word::small(2),
        question: "Q".to_string(),
        end: None,
    };
    let mut t = create_tracker("f".to_string());
    let r = record_entry(&mut t, "now".to_string(), &target, false, whole(10), true, true);
    assert_eq!(r.mode, "frontload");
    assert_eq!(r.market, "Q");
    assert_eq!(r.side, "BUY");
    assert_eq!(r.price, f(0.50));
    assert!(r.executed);
    let p = &t.open_positions()[0];
    assert_eq!(p.token_id, Word::small(2));
    assert_eq!(p.price_dec, Dec { mantissa: 5, scale: 1 });
    assert_eq!(p.amount_usdc, whole(10));
    assert!(!p.bought_up);
    let r = record_entry(&mut t, "now".to_string(), &target, true, whole(10), true, false);
    assert!(!r.executed);
}

#[test]
fn a_position_is_held_until_ten_seconds_after_the_window() {
    assert_eq!(hold_wait(600, 700), Some(10));
    assert_eq!(hold_wait(600, 909), Some(10));
    assert_eq!(hold_wait(600, 910), None);
    assert_eq!(hold_wait(600, 0), Some(10));
    assert_eq!(hold_wait(u64::MAX, u64::MAX), Some(10));
    assert_eq!(market_slug(600), "btc-updown-5m-600");
}

fn measured(momentum: f64, now: u64) -> Happened {
    let price = Some(f(60_000.0));
    Happened::Measured { price, past: price, momentum: f(momentum), now }
}

/// Hands in one event after the other; what the run asks for each time.
fn follow(events: &[Happened]) -> (Phase, Vec<Todo>) {
    let mut phase = Phase::Idle;
    let mut asked = vec![];
    for e in events {
        let (next, todo) = step(phase, *e).unwrap();
        phase = next;
        asked.push(todo);
    }
    (phase, asked)
}

#[test]
fn a_round_goes_from_the_wait_to_the_outcome() {
    let (phase, asked) = follow(&[
        Happened::Clock(301),
        Happened::Clock(301),
        Happened::Clock(599),
        Happened::Clock(604),
        measured(25.0, 604),
        Happened::Searched(None),
        Happened::Searched(Some(f(0.5))),
        Happened::Bought(true),
        Happened::Clock(612),
        Happened::Clock(909),
        Happened::Clock(919),
        Happened::Settled,
    ]);
    assert_eq!(phase, Phase::Idle);
    assert_eq!(
        asked,
        vec![
            Todo::Wait(0),
            Todo::Sample(5),
            Todo::Sample(5),
            Todo::Measure,
            Todo::Search(0),
            Todo::Search(5),
            Todo::Buy { open_ts: 600, up: true },
            Todo::Wait(0),
            Todo::Wait(10),
            Todo::Wait(10),
            Todo::Settle(5),
            Todo::Wait(2),
        ]
    );
}

#[test]
fn a_round_is_given_up_early() {
    let opened = [Happened::Clock(301), Happened::Clock(600)];
    let (phase, asked) = follow(&[&opened[..], &[measured(-19.0, 610)]].concat());
    assert_eq!((phase, asked[2]), (Phase::Idle, Todo::Wait(290)));
    let none = Happened::Measured { price: None, past: None, momentum: f(0.0), now: 600 };
    let (phase, asked) = follow(&[&opened[..], &[none]].concat());
    assert_eq!((phase, asked[2]), (Phase::Idle, Todo::Wait(10)));
    let missed = [measured(-25.0, 600), Happened::Searched(None), Happened::Searched(None)];
    let (phase, asked) = follow(&[&opened[..], &missed].concat());
    assert_eq!((phase, asked[4]), (Phase::Idle, Todo::Wait(250)));
    let poor = [measured(-25.0, 600), Happened::Searched(Some(f(0.5))), Happened::Bought(false)];
    let (phase, asked) = follow(&[&opened[..], &poor].concat());
    assert_eq!(asked[3], Todo::Buy { open_ts: 600, up: false });
    assert_eq!((phase, asked[4]), (Phase::Idle, Todo::Wait(250)));
}

#[test]
fn a_window_is_bought_into_once() {
    let round = |now: u64| {
        [
            Happened::Clock(now),
            Happened::Clock(now + 300),
            measured(30.0, now + 300),
            Happened::Searched(Some(f(0.5))),
            Happened::Bought(true),
            Happened::Clock(now + 700),
            Happened::Settled,
        ]
    };
    let (_, asked) = follow(&[round(301), round(1_001)].concat());
    let windows: Vec<u64> = asked
        .iter()
        .filter_map(|t| match t {
            Todo::Buy { open_ts, .. } => Some(*open_ts),
            _ => None,
        })
        .collect();
    assert_eq!(windows, vec![600, 1_200]);
}

#[test]
fn what_is_not_awaited_is_ignored() {
    assert_eq!(step(Phase::Idle, Happened::Settled), None);
    assert_eq!(step(Phase::Idle, Happened::Clock(u64::MAX)), None);
    assert_eq!(step(Phase::Holding { open_ts: 600 }, measured(30.0, 650)), None);
    assert_eq!(Phase::Idle.window(), None);
    assert_eq!(Phase::Looking { open_ts: 600, up: true, tries: 1 }.window(), Some(600));
}

fn outcome(up: Option<f64>) -> Event {
    let outcome_prices = match up {
        Some(p) => vec![Some(f(p)), Some(f(1.0 - p))],
        None => vec![],
    };
    let market = Market {
        id: "m".to_string(),
        question: None,
        slug: None,
        condition_id: None,
        closed: Some(true),
        token_ids: vec![],
        outcomes: vec!["Up".to_string(), "Down".to_string()],
        outcome_prices,
        best_bid: None,
        end: None,
    };
    Event { slug: None, markets: vec![market] }
}

fn holding(price: &str) -> SessionTracker {
    let mut t = create_tracker("f".to_string());
    t.record_trade(
        "now".to_string(),
        "frontload",
        "Q",
        Side::Buy,
        whole(10),
        f(0.5),
        price,
        true,
        Some(Word::small(7)),
        Word::small(9),
        true,
    );
    t
}

#[test]
fn a_position_is_settled_by_the_first_outcome() {
    let id = Word::small(7);
    let mut t = holding("0.5");
    assert_eq!(settle(&mut t, id, &vec![outcome(None)]), Ok(vec![]));
    assert_eq!(t.open_condition_ids().len(), 1);
    let events = vec![outcome(None), outcome(Some(0.99)), outcome(Some(0.01))];
    assert_eq!(settle(&mut t, id, &events), Ok(vec![true, false]));
    assert_eq!(t.open_condition_ids().len(), 0);
    let s = t.checked_summary().unwrap();
    assert_eq!(s.realized_profit, Dec { mantissa: 10, scale: 0 });

    let mut t = holding("0.5");
    assert_eq!(settle(&mut t, id, &vec![outcome(Some(0.01))]), Ok(vec![false]));
    assert_eq!(t.checked_summary().unwrap().realized_profit, whole(-10));
}

#[test]
fn a_position_that_cannot_be_settled_is_kept() {
    let id = Word::small(7);
    let mut t = holding("0");
    assert_eq!(settle(&mut t, id, &vec![outcome(Some(0.99))]), Err(Unsettled::Profit));
    assert_eq!(t.open_condition_ids().len(), 1);
    let mut odd = outcome(Some(0.99));
    odd.markets[0].outcomes = vec!["a".to_string(), "b".to_string(), "up".to_string()];
    let mut t = holding("0.5");
    let events = vec![outcome(Some(0.99)), odd];
    assert_eq!(settle(&mut t, id, &events), Err(Unsettled::UpOutOfRange));
    assert_eq!(t.open_condition_ids().len(), 1);
}
