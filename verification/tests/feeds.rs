use simple_bot::feeds::{wait_for_btc_price, Feed, FeedEvent, FeedPrices, Wait};
use simple_bot::figure::Figure;

fn f(x: f64) -> Figure {
    Figure::from_bits(x.to_bits())
}

#[test]
fn feeds_start_empty() {
    let prices = FeedPrices::default();
    assert_eq!(prices.feed_count(), 0);
    assert!(!prices.has_minimum_data());
    assert_eq!(prices.btc_price(), None);
}

#[test]
fn symbols_are_those_of_the_sources() {
    let symbols: Vec<&str> = Feed::all().iter().map(|x| x.symbol()).collect();
    assert_eq!(symbols, vec!["btcusdt", "ethusdt", "btc/usd", "eth/usd"]);
}

#[test]
fn each_source_sets_its_own_price() {
    for (i, feed) in Feed::all().into_iter().enumerate() {
        let mut prices = FeedPrices::default();
        assert!(prices.take_in(feed, FeedEvent::Price(Some(f(10.0)))));
        let all =
            [prices.binance_btc, prices.binance_eth, prices.chainlink_btc, prices.chainlink_eth];
        for (j, p) in all.into_iter().enumerate() {
            assert_eq!(p, if i == j { Some(f(10.0)) } else { None });
        }
        assert_eq!(prices.feed_count(), 1);
    }
}

#[test]
fn unreadable_prices_are_zero_or_ignored() {
    let mut prices = FeedPrices::default();
    prices.take_in(Feed::BinanceBtc, FeedEvent::Price(None));
    prices.take_in(Feed::ChainlinkBtc, FeedEvent::Price(None));
    assert_eq!(prices.binance_btc, Some(f(0.0)));
    assert_eq!(prices.chainlink_btc, None);
    prices.take_in(Feed::ChainlinkBtc, FeedEvent::Price(Some(f(3.0))));
    prices.take_in(Feed::ChainlinkBtc, FeedEvent::Price(None));
    assert_eq!(prices.chainlink_btc, Some(f(3.0)));
}

#[test]
fn errors_keep_the_subscription_and_ends_do_not() {
    let mut prices = FeedPrices::default();
    assert!(prices.take_in(Feed::BinanceEth, FeedEvent::Failed));
    assert!(!prices.take_in(Feed::BinanceEth, FeedEvent::Ended));
    assert!(!prices.take_in(Feed::BinanceEth, FeedEvent::Refused));
    assert_eq!(prices.feed_count(), 0);
}

#[test]
fn both_coins_are_needed() {
    let mut prices = FeedPrices::default();
    prices.chainlink_btc = Some(f(1.0));
    assert!(!prices.has_minimum_data());
    prices.binance_eth = Some(f(2.0));
    assert!(prices.has_minimum_data());
    assert_eq!(prices.feed_count(), 2);
}

#[test]
fn binance_comes_before_chainlink() {
    let mut prices = FeedPrices::default();
    prices.chainlink_btc = Some(f(1.0));
    assert_eq!(prices.btc_price(), Some(f(1.0)));
    prices.binance_btc = Some(f(2.0));
    assert_eq!(prices.btc_price(), Some(f(2.0)));
}

#[test]
fn evidence_pairs_each_source_with_itself() {
    let mut start = FeedPrices::default();
    let mut now = FeedPrices::default();
    start.binance_btc = Some(f(100.0));
    start.chainlink_btc = Some(f(101.0));
    now.chainlink_btc = Some(f(103.0));
    now.binance_eth = Some(f(9.0));
    assert_eq!(now.as_evidence_btc_only(&start), vec![(f(101.0), f(103.0))]);
    now.binance_btc = Some(f(102.0));
    assert_eq!(
        now.as_evidence_btc_only(&start),
        vec![(f(100.0), f(102.0)), (f(101.0), f(103.0))]
    );
    assert!(FeedPrices::default().as_evidence_btc_only(&start).is_empty());
}

#[test]
fn a_first_price_is_waited_for() {
    assert_eq!(wait_for_btc_price(Some(f(5.0)), 99_999), Wait::Ready(f(5.0)));
    assert_eq!(wait_for_btc_price(None, 0), Wait::Again(200));
    assert_eq!(wait_for_btc_price(None, 14_999), Wait::Again(200));
    assert_eq!(wait_for_btc_price(None, 15_000), Wait::GivenUp(f(0.0)));
}

#[test]
fn ether_prices_are_no_evidence() {
    let mut start = FeedPrices::default();
    let mut now = FeedPrices::default();
    start.binance_eth = Some(f(1.0));
    now.binance_eth = Some(f(2.0));
    start.binance_btc = Some(f(3.0));
    now.chainlink_btc = Some(f(4.0));
    assert!(now.as_evidence_btc_only(&start).is_empty());
    now.binance_btc = Some(f(5.0));
    let with_ether = now.as_evidence_btc_only(&start);
    now.binance_eth = None;
    start.chainlink_eth = Some(f(9.0));
    assert_eq!(now.as_evidence_btc_only(&start), with_ether);
    assert_eq!(with_ether, vec![(f(3.0), f(5.0))]);
}
