//! Arbitrage: both outcomes of a market cost less than 1 together, or sell for
//! more.

use vstd::prelude::*;

use crate::decimal::{
    div_dec, integer, pow10_is_positive, quotient_of, round_dec, rounding_goes_to_the_nearest,
    text_value, whole, whole_quotient_divides, Dec,
};
use crate::figure::{fig, Figure};
use crate::ids::Word;
use crate::market::{markets_view, Market, MarketView};
use crate::orderbook::{get_best_ask, get_best_bid, levels_at, OrderbookState};
use crate::text::pow10;
use crate::tracker::{SessionTracker, TradeRecord, TradeView};
use crate::trading::Side;

verus! {

/// 0.98: both outcomes are bought where their asks add up to less.
pub const BUY_BELOW: u64 = 0x3FEF_5C28_F5C2_8F5C;

/// 1.02: both outcomes are sold where their bids add up to more.
pub const SELL_ABOVE: u64 = 0x3FF0_51EB_851E_B852;

/// 5: the smallest position, in USDC.
pub const MIN_POSITION_USDC: u64 = 0x4014_0000_0000_0000;

/// 100: the largest position, in USDC.
pub const MAX_POSITION_USDC: u64 = 0x4059_0000_0000_0000;

/// The smallest position, in whole USDC; also the size of one whose size is no
/// decimal number.
pub const SMALLEST_SIZE: i64 = 5;

/// The largest position, in whole USDC.
pub const LARGEST_SIZE: i64 = 100;

/// How many updates pass between two checks.
pub const CHECK_EVERY: u64 = 100;

/// Which way an arbitrage goes.
#[derive(Clone, Copy, Debug, PartialEq, Eq, Structural)]
pub enum ArbitrageSide {
    BuyBoth,
    SellBoth,
}

impl ArbitrageSide {
    pub open spec fn order_side(self) -> Side {
        match self {
            ArbitrageSide::BuyBoth => Side::Buy,
            ArbitrageSide::SellBoth => Side::Sell,
        }
    }

    /// The side of both orders.
    pub fn side(self) -> (r: Side)
        ensures
            r == self.order_side(),
    {
        match self {
            ArbitrageSide::BuyBoth => Side::Buy,
            ArbitrageSide::SellBoth => Side::Sell,
        }
    }
}

/// A market with two outcomes.
#[derive(Debug)]
pub struct BinaryTarget {
    pub yes_token: Word,
    pub no_token: Word,
    pub market_id: String,
}

/// A binary market as plain values.
pub open spec fn target_view(t: BinaryTarget) -> (Word, Word, Seq<char>) {
    (t.yes_token, t.no_token, t.market_id@)
}

pub open spec fn targets_view(v: Seq<BinaryTarget>) -> Seq<(Word, Word, Seq<char>)> {
    Seq::new(v.len(), |i: int| target_view(v[i]))
}

/// The markets with two tokens or more, in order.
pub open spec fn binary_among(ms: Seq<MarketView>) -> Seq<(Word, Word, Seq<char>)>
    decreases ms.len(),
{
    if ms.len() == 0 {
        Seq::empty()
    } else {
        let before = binary_among(ms.drop_last());
        if ms.last().token_ids.len() >= 2 {
            before.push((ms.last().token_ids[0], ms.last().token_ids[1], ms.last().id))
        } else {
            before
        }
    }
}

/// The markets with two tokens or more, in order.
pub fn binary_targets(markets: &Vec<Market>) -> (r: Vec<BinaryTarget>)
    ensures
        targets_view(r@) == binary_among(markets_view(markets@)),
{
    let ghost ms = markets_view(markets@);
    let mut targets: Vec<BinaryTarget> = Vec::new();
    let mut i: usize = 0;
    assert(ms.take(0) =~= Seq::empty());
    assert(targets_view(targets@) =~= Seq::empty());
    while i < markets.len()
        invariant
            i <= markets@.len(),
            ms == markets_view(markets@),
            targets_view(targets@) == binary_among(ms.take(i as int)),
        decreases markets@.len() - i,
    {
        let m = &markets[i];
        assert(ms.take(i + 1).drop_last() =~= ms.take(i as int));
        assert(ms.take(i + 1).last() == m@);
        if m.token_ids.len() >= 2 {
            let ghost before = targets_view(targets@);
            targets.push(
                BinaryTarget {
                    yes_token: m.token_ids[0],
                    no_token: m.token_ids[1],
                    market_id: m.id.clone(),
                },
            );
            assert(targets_view(targets@) =~= before.push(
                (m@.token_ids[0], m@.token_ids[1], m@.id),
            ));
        }
        i = i + 1;
    }
    assert(ms.take(i as int) =~= ms);
    targets
}

/// The tokens whose books are watched: both of every target, in order.
pub fn asset_ids(targets: &Vec<BinaryTarget>) -> (r: Vec<Word>)
    ensures
        r@.len() == 2 * targets@.len(),
        forall|i: int|
            0 <= i < targets@.len() ==> r@[2 * i] == (#[trigger] targets@[i]).yes_token && r@[2 * i
                + 1] == targets@[i].no_token,
{
    let mut ids: Vec<Word> = Vec::new();
    let mut i: usize = 0;
    while i < targets.len()
        invariant
            i <= targets@.len(),
            ids@.len() == 2 * i,
            forall|k: int|
                0 <= k < i ==> ids@[2 * k] == (#[trigger] targets@[k]).yes_token && ids@[2 * k + 1]
                    == targets@[k].no_token,
        decreases targets@.len() - i,
    {
        ids.push(targets[i].yes_token);
        ids.push(targets[i].no_token);
        i = i + 1;
    }
    ids
}

/// What both outcomes together come to on one side of the books: the sum of
/// their prices, what a unit gains, the share of the depth that may be used, and
/// the size of the position for it as a decimal number, where it is one.
#[derive(Clone, Copy, Debug)]
pub struct Offer {
    pub sum: Figure,
    pub profit: Figure,
    pub depth: Figure,
    pub size: Option<Dec>,
}

/// A size within the smallest and the largest position.
pub open spec fn is_position(size: Dec) -> bool {
    integer(SMALLEST_SIZE as int).units() <= size.units() <= integer(LARGEST_SIZE as int).units()
}

impl Offer {
    /// The size is that of a position.
    pub open spec fn wf(self) -> bool {
        self.size is Some ==> self.size->0.wf() && is_position(self.size->0)
    }
}

/// The size of a position for so much depth: no more than that and than the
/// largest position; `None` where it is smaller than the smallest one.
pub open spec fn size_for(depth: Figure) -> Option<Figure> {
    let size = depth.least(fig(MAX_POSITION_USDC));
    if size.below(fig(MIN_POSITION_USDC)) {
        None
    } else {
        Some(size)
    }
}

/// The size of a position for so much depth; `None` where it is too small.
pub fn position_size(depth: Figure) -> (r: Option<Figure>)
    ensures
        r == size_for(depth),
        r is None <==> depth.least(fig(MAX_POSITION_USDC)).below(fig(MIN_POSITION_USDC)),
        r is Some && !depth.is_nan() ==> r->0.at_most(depth),
{
    let size = depth.min(Figure::from_bits(MAX_POSITION_USDC));
    if size.lt(Figure::from_bits(MIN_POSITION_USDC)) {
        None
    } else {
        Some(size)
    }
}

/// An arbitrage to be made.
#[derive(Debug)]
pub struct ArbitrageSignal {
    pub side: ArbitrageSide,
    pub yes_token: Word,
    pub no_token: Word,
    /// The size of the position.
    pub position: Figure,
    /// The size as a decimal number.
    pub size_usdc: Dec,
    pub profit_per_unit: Figure,
    pub market_id: String,
}

/// Both asks are known, add up to little enough, and have depth enough.
pub open spec fn can_buy_both(state: OrderbookState, yes: Word, no: Word, buy: Offer) -> bool {
    &&& levels_at(state, yes) is Some
    &&& levels_at(state, yes)->0.best_ask is Some
    &&& levels_at(state, no) is Some
    &&& levels_at(state, no)->0.best_ask is Some
    &&& buy.sum.below(fig(BUY_BELOW))
    &&& size_for(buy.depth) is Some
}

/// Both bids are known, add up to enough, and have depth enough.
pub open spec fn can_sell_both(state: OrderbookState, yes: Word, no: Word, sell: Offer) -> bool {
    &&& levels_at(state, yes) is Some
    &&& levels_at(state, yes)->0.best_bid is Some
    &&& levels_at(state, no) is Some
    &&& levels_at(state, no)->0.best_bid is Some
    &&& fig(SELL_ABOVE).below(sell.sum)
    &&& size_for(sell.depth) is Some
}

/// The arbitrage that a market offers, buying before selling. The offers are
/// those of the asks and of the bids of the two tokens; one whose prices are
/// not both known is ignored.
pub fn check_arbitrage(
    state: &OrderbookState,
    yes_token: Word,
    no_token: Word,
    market_id: &str,
    buy: &Offer,
    sell: &Offer,
) -> (r: Option<ArbitrageSignal>)
    requires
        buy.wf(),
        sell.wf(),
    ensures
        r is Some <==> can_buy_both(*state, yes_token, no_token, *buy) || can_sell_both(
            *state,
            yes_token,
            no_token,
            *sell,
        ),
        r is Some ==> ({
            let buys = can_buy_both(*state, yes_token, no_token, *buy);
            let offer = if buys {
                *buy
            } else {
                *sell
            };
            &&& r->0.side == (if buys {
                ArbitrageSide::BuyBoth
            } else {
                ArbitrageSide::SellBoth
            })
            &&& r->0.yes_token == yes_token
            &&& r->0.no_token == no_token
            &&& Some(r->0.position) == size_for(offer.depth)
            &&& !offer.depth.is_nan() ==> r->0.position.at_most(offer.depth)
            &&& r->0.size_usdc == offer.size.unwrap_or(integer(SMALLEST_SIZE as int))
            &&& r->0.size_usdc.wf()
            &&& is_position(r->0.size_usdc)
            &&& r->0.profit_per_unit == offer.profit
            &&& r->0.market_id@ == market_id@
        }),
{
    let asks: bool = get_best_ask(state, yes_token).is_some() && get_best_ask(
        state,
        no_token,
    ).is_some();
    let bids: bool = get_best_bid(state, yes_token).is_some() && get_best_bid(
        state,
        no_token,
    ).is_some();
    let buying = position_size(buy.depth);
    let selling = position_size(sell.depth);
    let buys: bool = asks && buy.sum.lt(Figure::from_bits(BUY_BELOW)) && buying.is_some();
    let sells: bool = bids && Figure::from_bits(SELL_ABOVE).lt(sell.sum) && selling.is_some();
    if !buys && !sells {
        return None;
    }
    let (offer, position) = if buys {
        (buy, buying.unwrap())
    } else {
        (sell, selling.unwrap())
    };
    let size_usdc = match offer.size {
        Some(d) => d,
        None => whole(SMALLEST_SIZE),
    };
    assert(is_position(integer(SMALLEST_SIZE as int))) by {
        pow10_is_positive(28);
        assert(integer(SMALLEST_SIZE as int).units() == 5 * pow10(28));
        assert(integer(LARGEST_SIZE as int).units() == 100 * pow10(28));
    }
    Some(
        ArbitrageSignal {
            side: if buys {
                ArbitrageSide::BuyBoth
            } else {
                ArbitrageSide::SellBoth
            },
            yes_token,
            no_token,
            position,
            size_usdc,
            profit_per_unit: offer.profit,
            market_id: market_id.to_owned(),
        },
    )
}

/// Half of a position, to six decimal places.
pub open spec fn half_of(size: Dec) -> Dec {
    quotient_of(size, integer(2)).unwrap_or(integer(0)).rounded(6)
}

/// The amount of each of the two orders: half of the position.
pub fn leg_amount(size: Dec) -> (r: Dec)
    requires
        size.wf(),
    ensures
        r == half_of(size),
        r.wf(),
{
    round_dec(div_dec(size, whole(2)).unwrap(), 6)
}

/// Writes an arbitrage down as one trade, in no market of its own. It counts as
/// executed where both orders were placed in a live session.
pub fn record_arbitrage(
    tracker: &mut SessionTracker,
    timestamp: String,
    signal: &ArbitrageSignal,
    price_text: &str,
    ok_yes: bool,
    ok_no: bool,
    live: bool,
) -> (r: TradeRecord)
    requires
        old(tracker).wf(),
        signal.size_usdc.wf(),
    ensures
        final(tracker).wf(),
        final(tracker).adds(
            *old(tracker),
            r,
            TradeView {
                timestamp: timestamp@,
                mode: "arbitrage"@,
                market: signal.market_id@,
                side: signal.side.order_side(),
                amount_usdc: signal.size_usdc,
                price: signal.profit_per_unit,
                price_dec: text_value(price_text@).unwrap_or(integer(1)),
                executed: ok_yes && ok_no && live,
                condition_id: None,
                token_id: signal.yes_token,
                bought_up: true,
            },
        ),
{
    tracker.record_trade(
        timestamp,
        "arbitrage",
        signal.market_id.as_str(),
        signal.side.side(),
        signal.size_usdc,
        signal.profit_per_unit,
        price_text,
        ok_yes && ok_no && live,
        None,
        signal.yes_token,
        true,
    )
}

/// Whether the books are checked after so many updates.
pub fn check_is_due(updates: u64) -> (r: bool)
    ensures
        r == (updates % CHECK_EVERY == 0),
{
    updates % CHECK_EVERY == 0
}

/// A position is never smaller than the smallest one, never larger than the
/// largest one, and never takes more than the share of the depth that may be
/// used.
pub proof fn size_is_bounded(depth: Figure)
    requires
        size_for(depth) is Some,
    ensures
        fig(MIN_POSITION_USDC).at_most(size_for(depth)->0),
        size_for(depth)->0.at_most(fig(MAX_POSITION_USDC)),
        !depth.is_nan() ==> size_for(depth)->0.at_most(depth),
{
}

/// A position takes all of the depth that may be used, up to the largest
/// position; there is one exactly where that reaches the smallest. A depth that
/// is no number does not limit it.
pub proof fn positions_use_the_depth(depth: Figure)
    ensures
        size_for(depth) is Some <==> depth.is_nan() || fig(MIN_POSITION_USDC).rank()
            <= depth.rank(),
        size_for(depth) is Some && !depth.is_nan() && depth.rank() <= fig(MAX_POSITION_USDC).rank()
            ==> size_for(depth) == Some(depth),
        depth.is_nan() || fig(MAX_POSITION_USDC).rank() < depth.rank() ==> size_for(depth) == Some(
            fig(MAX_POSITION_USDC),
        ),
{
}

/// Both outcomes are bought exactly where both have an ask, the two asks come to
/// less than the limit and the depth is large enough; sold exactly where both
/// have a bid, the two bids come to more than the other limit and the depth is
/// large enough.
pub proof fn both_sides_have_to_be_offered(
    state: OrderbookState,
    yes: Word,
    no: Word,
    offer: Offer,
)
    ensures
        can_buy_both(state, yes, no, offer) <==> {
            &&& levels_at(state, yes) matches Some(y)
            &&& levels_at(state, no) matches Some(n)
            &&& y.best_ask is Some
            &&& n.best_ask is Some
            &&& !offer.sum.is_nan() && offer.sum.rank() < fig(BUY_BELOW).rank()
            &&& offer.depth.is_nan() || offer.depth.rank() >= fig(MIN_POSITION_USDC).rank()
        },
        can_sell_both(state, yes, no, offer) <==> {
            &&& levels_at(state, yes) matches Some(y)
            &&& levels_at(state, no) matches Some(n)
            &&& y.best_bid is Some
            &&& n.best_bid is Some
            &&& !offer.sum.is_nan() && offer.sum.rank() > fig(SELL_ABOVE).rank()
            &&& offer.depth.is_nan() || offer.depth.rank() >= fig(MIN_POSITION_USDC).rank()
        },
{
}

/// Of the markets those with two tokens or more are watched, each by its first
/// two, in order.
pub proof fn binary_markets_are_watched(ms: Seq<MarketView>, m: MarketView)
    ensures
        binary_among(Seq::<MarketView>::empty()).len() == 0,
        m.token_ids.len() >= 2 ==> binary_among(ms.push(m)) == binary_among(ms).push(
            (m.token_ids[0], m.token_ids[1], m.id),
        ),
        m.token_ids.len() < 2 ==> binary_among(ms.push(m)) == binary_among(ms),
{
    assert(ms.push(m).drop_last() =~= ms);
}

/// The two orders of an arbitrage come to its size together, exactly where half
/// of it needs no more than six decimal places, else up to the sixth.
pub proof fn two_legs_make_the_position(size: Dec)
    requires
        size.wf(),
    ensures
        size.mantissa % 2 == 0 && size.scale <= 6 ==> half_of(size).units() + half_of(size).units()
            == size.units(),
        size.mantissa % 2 == 0 ==> -pow10(22) <= half_of(size).units() + half_of(size).units()
            - size.units() <= pow10(22),
        half_of(size).scale <= 6 || quotient_of(size, integer(2)) is None,
        quotient_of(size, integer(2)) is Some && quotient_of(size, integer(2))->0.wf() ==> {
            let exact = quotient_of(size, integer(2))->0.units();
            -pow10(22) <= 2 * (half_of(size).units() - exact) <= pow10(22)
        },
{
    let two = integer(2);
    if size.mantissa % 2 == 0 {
        assert(size.mantissa as int % two.mantissa as int == 0);
        let q = quotient_of(size, two)->0;
        whole_quotient_divides(size, two);
        assert(two.units() == 2 * pow10(28));
        assert(integer(1).units() == 1 * pow10(28));
        pow10_is_positive(28);
        let p = pow10(28) as int;
        assert(q.units() * 2 == size.units()) by (nonlinear_arith)
            requires
                q.units() * (2 * p) == size.units() * (1 * p),
                p > 0,
        ;
    }
    if quotient_of(size, two) is Some && quotient_of(size, two)->0.wf() {
        rounding_goes_to_the_nearest(quotient_of(size, two)->0, 6);
    }
}

} // verus!
