//! Live prices of bitcoin and ether from two sources each.

use vstd::prelude::*;

use crate::figure::{fig, Figure};

verus! {

pub const BINANCE_BTC: &'static str = "btcusdt";

pub const BINANCE_ETH: &'static str = "ethusdt";

pub const CHAINLINK_BTC: &'static str = "btc/usd";

pub const CHAINLINK_ETH: &'static str = "eth/usd";

/// How long a first price is waited for, in milliseconds.
pub const PRICE_DEADLINE_MS: u64 = 15_000;

/// How often it is looked for, in milliseconds.
pub const PRICE_POLL_MS: u64 = 200;

/// One source of one price.
#[derive(Clone, Copy, Debug, PartialEq, Eq, Structural)]
pub enum Feed {
    BinanceBtc,
    BinanceEth,
    ChainlinkBtc,
    ChainlinkEth,
}

impl Feed {
    pub open spec fn is_binance(self) -> bool {
        self is BinanceBtc || self is BinanceEth
    }

    /// The symbol that the source knows the price by.
    pub fn symbol(self) -> (r: &'static str)
        ensures
            r@ == (match self {
                Feed::BinanceBtc => BINANCE_BTC@,
                Feed::BinanceEth => BINANCE_ETH@,
                Feed::ChainlinkBtc => CHAINLINK_BTC@,
                Feed::ChainlinkEth => CHAINLINK_ETH@,
            }),
    {
        match self {
            Feed::BinanceBtc => BINANCE_BTC,
            Feed::BinanceEth => BINANCE_ETH,
            Feed::ChainlinkBtc => CHAINLINK_BTC,
            Feed::ChainlinkEth => CHAINLINK_ETH,
        }
    }

    pub fn binance(self) -> (r: bool)
        ensures
            r == self.is_binance(),
    {
        match self {
            Feed::BinanceBtc | Feed::BinanceEth => true,
            _ => false,
        }
    }

    /// The feeds that are subscribed to, in order.
    pub fn all() -> (r: Vec<Feed>)
        ensures
            r@ == seq![
                Feed::BinanceBtc,
                Feed::BinanceEth,
                Feed::ChainlinkBtc,
                Feed::ChainlinkEth,
            ],
    {
        vec![Feed::BinanceBtc, Feed::BinanceEth, Feed::ChainlinkBtc, Feed::ChainlinkEth]
    }
}

/// What a subscription brings.
#[derive(Clone, Copy, Debug, PartialEq, Eq, Structural)]
pub enum FeedEvent {
    /// The source could not be subscribed to.
    Refused,
    /// A price; `None` where its text is no number.
    Price(Option<Figure>),
    /// An error in place of a price.
    Failed,
    /// The subscription is over.
    Ended,
}

/// The last price from each source.
#[derive(Clone, Copy, Debug, PartialEq, Eq, Structural)]
pub struct FeedPrices {
    pub binance_btc: Option<Figure>,
    pub binance_eth: Option<Figure>,
    pub chainlink_btc: Option<Figure>,
    pub chainlink_eth: Option<Figure>,
}

impl Default for FeedPrices {
    fn default() -> (r: FeedPrices)
        ensures
            r.count() == 0,
    {
        FeedPrices {
            binance_btc: None,
            binance_eth: None,
            chainlink_btc: None,
            chainlink_eth: None,
        }
    }
}

/// 1 where there is a price, else 0.
pub open spec fn one_if(p: Option<Figure>) -> int {
    if p is Some {
        1
    } else {
        0
    }
}

/// The pair of an earlier and a later price, where both are there.
pub open spec fn paired(start: Option<Figure>, now: Option<Figure>) -> Seq<(Figure, Figure)> {
    if start is Some && now is Some {
        seq![(start->0, now->0)]
    } else {
        Seq::empty()
    }
}

impl FeedPrices {
    pub open spec fn get(self, feed: Feed) -> Option<Figure> {
        match feed {
            Feed::BinanceBtc => self.binance_btc,
            Feed::BinanceEth => self.binance_eth,
            Feed::ChainlinkBtc => self.chainlink_btc,
            Feed::ChainlinkEth => self.chainlink_eth,
        }
    }

    /// How many sources have brought a price.
    pub open spec fn count(self) -> int {
        one_if(self.binance_btc) + one_if(self.binance_eth) + one_if(self.chainlink_btc) + one_if(
            self.chainlink_eth,
        )
    }

    /// How bitcoin moved, by each source that has two prices of it.
    pub open spec fn evidence(self, start: FeedPrices) -> Seq<(Figure, Figure)> {
        paired(start.binance_btc, self.binance_btc) + paired(
            start.chainlink_btc,
            self.chainlink_btc,
        )
    }

    /// The price of bitcoin: Binance's, else Chainlink's.
    pub open spec fn btc(self) -> Option<Figure> {
        if self.binance_btc is Some {
            self.binance_btc
        } else {
            self.chainlink_btc
        }
    }

    /// The price of a source after an event. Binance counts a price that
    /// cannot be read as 0, Chainlink ignores it.
    pub open spec fn after(self, feed: Feed, event: FeedEvent) -> Option<Figure> {
        match event {
            FeedEvent::Price(Some(p)) => Some(p),
            FeedEvent::Price(None) => if feed.is_binance() {
                Some(fig(0))
            } else {
                self.get(feed)
            },
            _ => self.get(feed),
        }
    }

    /// How bitcoin moved since `start_prices`: the pair of prices of each
    /// source that has both.
    pub fn as_evidence_btc_only(&self, start_prices: &FeedPrices) -> (r: Vec<(Figure, Figure)>)
        ensures
            r@ == self.evidence(*start_prices),
    {
        let mut evidence: Vec<(Figure, Figure)> = Vec::new();
        if let (Some(s), Some(c)) = (start_prices.binance_btc, self.binance_btc) {
            evidence.push((s, c));
        }
        assert(evidence@ =~= paired(start_prices.binance_btc, self.binance_btc));
        if let (Some(s), Some(c)) = (start_prices.chainlink_btc, self.chainlink_btc) {
            evidence.push((s, c));
        }
        assert(evidence@ =~= self.evidence(*start_prices));
        evidence
    }

    /// There is a price of each of the two coins.
    pub fn has_minimum_data(&self) -> (r: bool)
        ensures
            r == ((self.binance_btc is Some || self.chainlink_btc is Some) && (
            self.binance_eth is Some || self.chainlink_eth is Some)),
    {
        let has_btc: bool = self.binance_btc.is_some() || self.chainlink_btc.is_some();
        let has_eth: bool = self.binance_eth.is_some() || self.chainlink_eth.is_some();
        has_btc && has_eth
    }

    /// How many sources have brought a price.
    pub fn feed_count(&self) -> (r: usize)
        ensures
            r == self.count(),
            r <= 4,
    {
        let mut n: usize = 0;
        if self.binance_btc.is_some() {
            n = n + 1;
        }
        if self.binance_eth.is_some() {
            n = n + 1;
        }
        if self.chainlink_btc.is_some() {
            n = n + 1;
        }
        if self.chainlink_eth.is_some() {
            n = n + 1;
        }
        n
    }

    /// The price of bitcoin: Binance's, else Chainlink's.
    pub fn btc_price(&self) -> (r: Option<Figure>)
        ensures
            r == self.btc(),
    {
        match self.binance_btc {
            Some(p) => Some(p),
            None => self.chainlink_btc,
        }
    }

    /// Takes in what a subscription brought. Returns whether the subscription
    /// goes on.
    pub fn take_in(&mut self, feed: Feed, event: FeedEvent) -> (r: bool)
        ensures
            final(self).get(feed) == old(self).after(feed, event),
            forall|other: Feed|
                other != feed ==> final(self).get(other) == #[trigger] old(self).get(other),
            r == !(event is Refused || event is Ended),
    {
        let value: Option<Figure> = match event {
            FeedEvent::Price(Some(p)) => Some(p),
            FeedEvent::Price(None) => if feed.binance() {
                Some(Figure::from_bits(0))
            } else {
                None
            },
            _ => None,
        };
        if let Some(p) = value {
            match feed {
                Feed::BinanceBtc => {
                    self.binance_btc = Some(p);
                },
                Feed::BinanceEth => {
                    self.binance_eth = Some(p);
                },
                Feed::ChainlinkBtc => {
                    self.chainlink_btc = Some(p);
                },
                Feed::ChainlinkEth => {
                    self.chainlink_eth = Some(p);
                },
            }
        }
        match event {
            FeedEvent::Refused | FeedEvent::Ended => false,
            _ => true,
        }
    }
}

/// What to do while no price has come.
#[derive(Clone, Copy, Debug, PartialEq, Eq, Structural)]
pub enum Wait {
    /// Go on with this price.
    Ready(Figure),
    /// Go on without one: a price of 0 stands for it.
    GivenUp(Figure),
    /// Look again after some milliseconds.
    Again(u64),
}

/// Waits for a price of bitcoin: takes one that is there, gives up after the
/// deadline, else looks again.
pub fn wait_for_btc_price(price: Option<Figure>, waited_ms: u64) -> (r: Wait)
    ensures
        r == (match price {
            Some(p) => Wait::Ready(p),
            None => if waited_ms >= PRICE_DEADLINE_MS {
                Wait::GivenUp(fig(0))
            } else {
                Wait::Again(PRICE_POLL_MS)
            },
        }),
{
    match price {
        Some(p) => Wait::Ready(p),
        None => if waited_ms >= PRICE_DEADLINE_MS {
            Wait::GivenUp(Figure::from_bits(0))
        } else {
            Wait::Again(PRICE_POLL_MS)
        },
    }
}

/// There is evidence only where both snapshots have a price of bitcoin, at most
/// two pairs; and with the same snapshot on both sides every pair is level.
pub proof fn evidence_needs_both_snapshots(start: FeedPrices, now: FeedPrices)
    ensures
        now.evidence(start).len() <= 2,
        now.evidence(start).len() > 0 ==> start.btc() is Some && now.btc() is Some,
        forall|i: int|
            0 <= i < now.evidence(now).len() ==> (#[trigger] now.evidence(now)[i]).0
                == now.evidence(now)[i].1,
{
}

/// The prices of ether are no evidence: what bitcoin's prices say is all that
/// counts.
pub proof fn ether_is_no_evidence(
    start: FeedPrices,
    now: FeedPrices,
    other_start: FeedPrices,
    other_now: FeedPrices,
)
    requires
        start.binance_btc == other_start.binance_btc,
        start.chainlink_btc == other_start.chainlink_btc,
        now.binance_btc == other_now.binance_btc,
        now.chainlink_btc == other_now.chainlink_btc,
    ensures
        now.evidence(start) == other_now.evidence(other_start),
{
}

/// Without a source that has both prices of bitcoin there is no evidence.
pub proof fn no_pair_is_no_evidence(start: FeedPrices, now: FeedPrices)
    ensures
        now.evidence(start).len() == 0 <==> !(start.binance_btc is Some && now.binance_btc is Some)
            && !(start.chainlink_btc is Some && now.chainlink_btc is Some),
{
}

/// Once a source has brought a price it has one for good.
pub proof fn prices_stay(before: FeedPrices, feed: Feed, event: FeedEvent)
    requires
        before.get(feed) is Some,
    ensures
        before.after(feed, event) is Some,
{
}

/// A price that comes is the last one of its source. One that cannot be read
/// counts as 0 from Binance and as nothing from Chainlink; nothing else changes a
/// price.
pub proof fn sources_keep_their_last_price(before: FeedPrices, feed: Feed, event: FeedEvent)
    ensures
        before.get(Feed::BinanceBtc) == before.binance_btc,
        before.get(Feed::BinanceEth) == before.binance_eth,
        before.get(Feed::ChainlinkBtc) == before.chainlink_btc,
        before.get(Feed::ChainlinkEth) == before.chainlink_eth,
        event is Price && event->0 is Some ==> before.after(feed, event) == event->0,
        event is Price && event->0 is None && (feed is BinanceBtc || feed is BinanceEth)
            ==> before.after(feed, event) == Some(fig(0)),
        event is Price && event->0 is None && (feed is ChainlinkBtc || feed is ChainlinkEth)
            ==> before.after(feed, event) == before.get(feed),
        !(event is Price) ==> before.after(feed, event) == before.get(feed),
{
}

/// The evidence pairs the earlier price of bitcoin with the later one of the same
/// source, Binance before Chainlink.
pub proof fn evidence_pairs_a_source_with_itself(start: FeedPrices, now: FeedPrices)
    ensures
        ({
            let binance = start.binance_btc is Some && now.binance_btc is Some;
            let chainlink = start.chainlink_btc is Some && now.chainlink_btc is Some;
            let e = now.evidence(start);
            &&& binance ==> e.len() > 0 && e[0] == (start.binance_btc->0, now.binance_btc->0)
            &&& chainlink ==> e.len() > 0 && e.last() == (
                start.chainlink_btc->0,
                now.chainlink_btc->0,
            )
            &&& e.len() == 2 <==> binance && chainlink
            &&& e.len() == 0 <==> !binance && !chainlink
        }),
{
}

/// Binance's price of bitcoin counts before Chainlink's.
pub proof fn binance_comes_first(prices: FeedPrices)
    ensures
        prices.binance_btc is Some ==> prices.btc() == prices.binance_btc,
        prices.binance_btc is None ==> prices.btc() == prices.chainlink_btc,
{
}

/// A source more with a price counts one more, and four are all.
pub proof fn sources_are_counted(prices: FeedPrices)
    ensures
        0 <= prices.count() <= 4,
        prices.count() == 0 <==> prices.binance_btc is None && prices.binance_eth is None
            && prices.chainlink_btc is None && prices.chainlink_eth is None,
        prices.count() == 4 <==> prices.binance_btc is Some && prices.binance_eth is Some
            && prices.chainlink_btc is Some && prices.chainlink_eth is Some,
        prices.binance_btc is Some ==> (FeedPrices { binance_btc: None, ..prices }).count()
            == prices.count() - 1,
        prices.binance_eth is Some ==> (FeedPrices { binance_eth: None, ..prices }).count()
            == prices.count() - 1,
        prices.chainlink_btc is Some ==> (FeedPrices { chainlink_btc: None, ..prices }).count()
            == prices.count() - 1,
        prices.chainlink_eth is Some ==> (FeedPrices { chainlink_eth: None, ..prices }).count()
            == prices.count() - 1,
{
}

} // verus!
