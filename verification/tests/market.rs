use simple_bot::clock::Moment;
use simple_bot::figure::Figure;
use simple_bot::ids::Word;
use simple_bot::market::{
    checked_up_has_won, collect_from_events, collect_from_markets, discovery_plan, extract_target,
    filter_btc_updown_market, find_up, first_target, resolution_of, up_has_won, verdicts, Event,
    Listing, Market, UpOutOfRange, WON_PRICE,
};

fn f(x: f64) -> Figure {
    Figure::from_bits(x.to_bits())
}

fn market(id: &str) -> Market {
    Market {
        id: id.to_string(),
        question: Some("Bitcoin Up or Down - 5 min".to_string()),
        slug: Some("btc-updown-5m-1770978300".to_string()),
        condition_id: Some(Word::small(77)),
        closed: Some(false),
        token_ids: vec![Word::small(1), Word::small(2)],
        outcomes: vec!["Up".to_string(), "Down".to_string()],
        outcome_prices: vec![Some(f(0.6)), Some(f(0.4))],
        best_bid: None,
        end: Some(Moment { secs: 1_770_978_600, nanos: 0 }),
    }
}

fn event(slug: Option<&str>, markets: Vec<Market>) -> Event {
    Event { slug: slug.map(|s| s.to_string()), markets }
}

fn ids(markets: &[Market]) -> Vec<&str> {
    markets.iter().map(|m| m.id.as_str()).collect()
}

#[test]
fn the_price_of_a_winner_is_above_nine_tenths() {
    assert_eq!(f64::from_bits(WON_PRICE), 0.9);
}

#[test]
fn short_bitcoin_markets_are_recognised() {
    let mut m = market("a");
    assert!(filter_btc_updown_market(&m));
    m.question = Some("BITCOIN up or down".to_string());
    assert!(filter_btc_updown_market(&m));
    m.slug = Some("BTC-UPDOWN-15M".to_string());
    assert!(filter_btc_updown_market(&m));
    m.slug = Some("bitcoin-hourly".to_string());
    assert!(!filter_btc_updown_market(&m));
    for q in ["btc 5 min", "BTC 5-MIN", "btc 5m", "btc 15 min", "btc 15-min", "btc 15m"] {
        m.question = Some(q.to_string());
        assert!(filter_btc_updown_market(&m), "{}", q);
    }
    m.question = Some("ether 5m".to_string());
    assert!(!filter_btc_updown_market(&m));
    m.question = None;
    assert!(!filter_btc_updown_market(&m));
}

#[test]
fn markets_without_tokens_are_not_short_bitcoin_markets() {
    let mut m = market("a");
    m.token_ids = vec![];
    assert!(!filter_btc_updown_market(&m));
}

#[test]
fn events_are_collected_once_and_open() {
    let mut closed = market("c");
    closed.closed = Some(true);
    let mut unknown = market("u");
    unknown.closed = None;
    let events = vec![
        event(Some("btc-updown-5m-1"), vec![market("a"), closed, market("b"), unknown]),
        event(Some("other"), vec![market("d")]),
        event(None, vec![market("e")]),
        event(Some("btc-updown-15m-2"), vec![market("a"), market("f")]),
    ];
    let mut all = vec![market("b")];
    collect_from_events(&events, &mut all, true);
    assert_eq!(ids(&all), vec!["b", "a", "f"]);
    let mut all = vec![];
    collect_from_events(&events, &mut all, false);
    assert_eq!(ids(&all), vec!["a", "b", "d", "e", "f"]);
}

#[test]
fn listed_markets_are_collected_whether_open_or_not() {
    let mut closed = market("c");
    closed.closed = Some(true);
    let mut other = market("o");
    other.question = Some("ether".to_string());
    let mut all = vec![market("a")];
    let listed = vec![market("a"), closed, other, market("z")];
    collect_from_markets(&listed, &mut all);
    assert_eq!(ids(&all), vec!["a", "c", "z"]);
    collect_from_markets(&listed, &mut all);
    assert_eq!(ids(&all), vec!["a", "c", "z"]);
}

#[test]
fn markets_are_discovered_in_order() {
    let plan = discovery_plan();
    let asked: Vec<(Listing, &str, u32)> =
        plan.iter().map(|q| (q.listing, q.text, q.limit)).collect();
    assert_eq!(asked.len(), 11);
    assert_eq!(asked[0], (Listing::Series, "btc-updown-5m", 5));
    assert_eq!(asked[1], (Listing::Series, "btc-updown-15m", 5));
    assert_eq!(asked[2], (Listing::Tag, "5M", 50));
    assert_eq!(asked[5], (Listing::Tag, "crypto", 50));
    assert_eq!(asked[6], (Listing::Search, "bitcoin", 0));
    assert_eq!(asked[10], (Listing::Markets, "", 200));
    assert!(!Listing::Series.requires_slug() && Listing::Tag.requires_slug());
    assert!(Listing::Search.requires_slug() && !Listing::Markets.requires_slug());
}

#[test]
fn up_is_found_among_the_outcomes() {
    let texts = |v: &[&str]| v.iter().map(|s| s.to_string()).collect::<Vec<String>>();
    assert_eq!(find_up(&texts(&["Up", "Down"])), 0);
    assert_eq!(find_up(&texts(&["Down", "UP!"])), 1);
    assert_eq!(find_up(&texts(&["Down", "Group", "Up"])), 1);
    assert_eq!(find_up(&texts(&["Yes", "No"])), 0);
    assert_eq!(find_up(&texts(&[])), 0);
}

#[test]
fn the_first_usable_market_is_the_target() {
    let mut closed = market("c");
    closed.closed = Some(true);
    let mut single = market("s");
    single.token_ids = vec![Word::small(9)];
    let mut flipped = market("f");
    flipped.outcomes = vec!["Down".to_string(), "Up".to_string()];
    flipped.condition_id = None;
    flipped.question = None;
    let e = event(None, vec![closed, single, flipped, market("z")]);
    let t = extract_target(&e).unwrap();
    assert_eq!(t.yes_token_id, Word::small(2));
    assert_eq!(t.no_token_id, Word::small(1));
    assert_eq!(t.condition_id, Word::small(0));
    assert_eq!(t.question, "");
    assert_eq!(t.end, Some(Moment { secs: 1_770_978_600, nanos: 0 }));
    assert!(extract_target(&event(None, vec![])).is_none());
}

#[test]
fn events_are_searched_in_order() {
    let events = vec![event(None, vec![]), event(None, vec![market("a")])];
    let t = first_target(&events).unwrap().unwrap();
    assert_eq!(t.yes_token_id, Word::small(1));
    assert_eq!(t.condition_id, Word::small(77));
    assert!(first_target(&vec![]).unwrap().is_none());
    let mut odd = market("o");
    odd.outcomes = vec!["A".to_string(), "B".to_string(), "Up".to_string()];
    odd.token_ids.push(Word::small(3));
    assert_eq!(first_target(&vec![event(None, vec![odd])]).err(), Some(UpOutOfRange));
}

#[test]
fn markets_are_resolved_by_price() {
    let mut m = market("a");
    assert_eq!(resolution_of(&m), None);
    m.outcome_prices = vec![Some(f(1.0)), Some(f(0.0))];
    assert_eq!(resolution_of(&m), Some((Word::small(77), true)));
    m.outcome_prices = vec![Some(f(0.0)), Some(f(1.0))];
    assert_eq!(resolution_of(&m), Some((Word::small(77), false)));
    m.outcome_prices = vec![Some(f(0.9)), Some(f(0.9))];
    assert_eq!(resolution_of(&m), None);
    m.outcome_prices = vec![Some(f(1.0))];
    assert_eq!(resolution_of(&m), None);
    m.outcome_prices = vec![None, Some(f(0.95))];
    assert_eq!(resolution_of(&m), Some((Word::small(77), false)));
    m.condition_id = None;
    assert_eq!(resolution_of(&m), None);
}

#[test]
fn up_wins_by_its_own_price() {
    let mut m = market("a");
    m.outcomes = vec!["Down".to_string(), "Up".to_string()];
    m.outcome_prices = vec![Some(f(0.0)), Some(f(1.0))];
    assert_eq!(up_has_won(&m), Some(true));
    m.outcome_prices = vec![Some(f(1.0)), None];
    assert_eq!(up_has_won(&m), Some(false));
    m.outcome_prices = vec![];
    assert_eq!(checked_up_has_won(&m), Ok(None));
    m.outcomes = vec!["A".to_string(), "B".to_string(), "Up".to_string()];
    m.outcome_prices = vec![Some(f(1.0)), Some(f(0.0))];
    assert_eq!(checked_up_has_won(&m), Err(UpOutOfRange));
}

#[test]
fn copies_of_a_market_say_the_same() {
    let m = market("a");
    assert_eq!(format!("{:?}", m.clone()), format!("{:?}", m));
}

#[test]
fn the_outcomes_of_events_come_in_order() {
    let mut won = market("a");
    won.outcome_prices = vec![Some(f(0.99)), Some(f(0.01))];
    let mut lost = market("b");
    lost.outcome_prices = vec![Some(f(0.01)), Some(f(0.99))];
    let mut unpriced = market("c");
    unpriced.outcome_prices = vec![Some(f(0.99))];
    let events = vec![
        event(None, vec![unpriced, lost]),
        event(None, vec![]),
        event(None, vec![won.clone()]),
    ];
    assert_eq!(verdicts(&events), Ok(vec![false, true]));
    assert_eq!(verdicts(&vec![]), Ok(vec![]));
    let mut odd = market("d");
    odd.outcomes = vec!["a".to_string(), "b".to_string(), "Up".to_string()];
    let events = vec![event(None, vec![won]), event(None, vec![odd])];
    assert_eq!(verdicts(&events), Err(UpOutOfRange));
}

#[test]
fn collecting_from_events_again_changes_nothing() {
    let mut closed = market("c");
    closed.closed = Some(true);
    let events = vec![
        event(Some("btc-updown-5m-1"), vec![market("a"), closed]),
        event(Some("other"), vec![market("b")]),
        event(Some("btc-updown-15m-2"), vec![market("a"), market("d")]),
    ];
    let mut all = vec![];
    collect_from_events(&events, &mut all, true);
    assert_eq!(ids(&all), vec!["a", "d"]);
    collect_from_events(&events, &mut all, true);
    assert_eq!(ids(&all), vec!["a", "d"]);
    collect_from_events(&events, &mut all, false);
    assert_eq!(ids(&all), vec!["a", "d", "b"]);
}
