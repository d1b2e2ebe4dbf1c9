//! What a strategy would have done in one market of the past.

use std::collections::HashMap;

use vstd::prelude::*;

use crate::backtest::data::{
    has_minute_before, is_index, price_at, price_then, Candle, MarketRecord,
};
use crate::figure::{fig, Figure};

verus! {

/// Seconds between two looks at a market.
pub const LOOK_SECS: i64 = 30;

/// No look is taken with fewer seconds left.
pub const LAST_LOOK_SECS: i64 = 5;

/// 0.5: a model favours "up" above it.
pub const EVEN_ODDS: u64 = 0x3FE0_0000_0000_0000;

/// 0.005: the smallest edge that the sniper trades on.
pub const LEAST_EDGE: u64 = 0x3F74_7AE1_47AE_147B;

/// 0.01: the smallest bet of the Bayesian strategy, as a share of the bankroll.
pub const LEAST_KELLY: u64 = 0x3F84_7AE1_47AE_147B;

/// Parameters of the sniper.
#[derive(Clone, Copy, Debug, PartialEq, Eq, Structural)]
pub struct StrategyParams {
    pub volatility: Figure,
    pub min_confidence: Figure,
    pub max_ask: Figure,
    /// No trade is made before so many seconds have passed.
    pub min_elapsed_secs: i64,
    /// What the market is behind the model by.
    pub market_lag: Figure,
    pub size: Figure,
}

/// 0.90.
pub const DEFAULT_CONFIDENCE: u64 = 0x3FEC_CCCC_CCCC_CCCD;

/// 0.95.
pub const DEFAULT_MAX_ASK: u64 = 0x3FEE_6666_6666_6666;

/// 0.03.
pub const DEFAULT_LAG: u64 = 0x3F9E_B851_EB85_1EB8;

/// 8.
pub const DEFAULT_SENSITIVITY: u64 = 0x4020_0000_0000_0000;

/// 0.03.
pub const DEFAULT_DISCREPANCY: u64 = 0x3F9E_B851_EB85_1EB8;

/// 0.25.
pub const DEFAULT_KELLY: u64 = 0x3FD0_0000_0000_0000;

impl StrategyParams {
    pub fn default_with(volatility: Figure, size: Figure) -> (r: StrategyParams)
        ensures
            r == (StrategyParams {
                volatility,
                min_confidence: fig(DEFAULT_CONFIDENCE),
                max_ask: fig(DEFAULT_MAX_ASK),
                min_elapsed_secs: 0,
                market_lag: fig(DEFAULT_LAG),
                size,
            }),
    {
        StrategyParams {
            volatility,
            min_confidence: Figure::from_bits(DEFAULT_CONFIDENCE),
            max_ask: Figure::from_bits(DEFAULT_MAX_ASK),
            min_elapsed_secs: 0,
            market_lag: Figure::from_bits(DEFAULT_LAG),
            size,
        }
    }
}

/// Parameters of the Bayesian strategy.
#[derive(Clone, Copy, Debug, PartialEq, Eq, Structural)]
pub struct BayesianParams {
    /// How steep the evidence is.
    pub sensitivity: Figure,
    pub min_discrepancy: Figure,
    pub kelly_fraction: Figure,
    /// No trade is made before so many seconds have passed.
    pub min_elapsed_secs: i64,
    pub max_ask: Figure,
    /// What the market is behind the model by.
    pub market_lag: Figure,
    pub size: Figure,
}

impl BayesianParams {
    pub fn default_with(size: Figure) -> (r: BayesianParams)
        ensures
            r == (BayesianParams {
                sensitivity: fig(DEFAULT_SENSITIVITY),
                min_discrepancy: fig(DEFAULT_DISCREPANCY),
                kelly_fraction: fig(DEFAULT_KELLY),
                min_elapsed_secs: 0,
                max_ask: fig(DEFAULT_MAX_ASK),
                market_lag: fig(DEFAULT_LAG),
                size,
            }),
    {
        BayesianParams {
            sensitivity: Figure::from_bits(DEFAULT_SENSITIVITY),
            min_discrepancy: Figure::from_bits(DEFAULT_DISCREPANCY),
            kelly_fraction: Figure::from_bits(DEFAULT_KELLY),
            min_elapsed_secs: 0,
            max_ask: Figure::from_bits(DEFAULT_MAX_ASK),
            market_lag: Figure::from_bits(DEFAULT_LAG),
            size,
        }
    }
}

/// Parameters of frontloading.
#[derive(Clone, Copy, Debug, PartialEq, Eq, Structural)]
pub struct FrontloadParams {
    /// How far back the move is measured.
    pub lookback_secs: i64,
    pub momentum_threshold: Figure,
    pub entry_price: Figure,
    pub size: Figure,
}

/// How a trade went.
#[derive(Clone, Copy, Debug, PartialEq, Eq, Structural)]
pub enum TradeOutcome {
    Win,
    Loss,
}

/// A trade that would have been made.
#[derive(Debug)]
pub struct SimTrade {
    pub market_slug: String,
    pub side_up: bool,
    pub model_prob: Figure,
    pub buy_price: Figure,
    pub edge: Figure,
    pub entry_elapsed: i64,
    pub outcome: TradeOutcome,
    pub pnl: Figure,
}

/// What a trade says.
#[verifier::ext_equal]
pub struct TradeSketch {
    pub market_slug: Seq<char>,
    pub side_up: bool,
    pub model_prob: Figure,
    pub buy_price: Figure,
    pub edge: Figure,
    pub entry_elapsed: int,
    pub outcome: TradeOutcome,
    pub pnl: Figure,
}

impl View for SimTrade {
    type V = TradeSketch;

    open spec fn view(&self) -> TradeSketch {
        TradeSketch {
            market_slug: self.market_slug@,
            side_up: self.side_up,
            model_prob: self.model_prob,
            buy_price: self.buy_price,
            edge: self.edge,
            entry_elapsed: self.entry_elapsed as int,
            outcome: self.outcome,
            pnl: self.pnl,
        }
    }
}

/// When a market of this length is looked at.
pub fn check_times(window_secs: i64) -> (r: Vec<i64>)
    requires
        i64::MIN <= window_secs - LAST_LOOK_SECS <= i64::MAX - LOOK_SECS,
    ensures
        forall|i: int| 0 <= i < r@.len() ==> #[trigger] r@[i] == LOOK_SECS * (i + 1),
        forall|i: int| 0 <= i < r@.len() ==> #[trigger] r@[i] <= window_secs - LAST_LOOK_SECS,
        LOOK_SECS * (r@.len() + 1) > window_secs - LAST_LOOK_SECS,
{
    let mut times: Vec<i64> = Vec::new();
    let mut elapsed: i64 = LOOK_SECS;
    while elapsed <= window_secs - LAST_LOOK_SECS
        invariant
            i64::MIN <= window_secs - LAST_LOOK_SECS <= i64::MAX - LOOK_SECS,
            0 < elapsed,
            elapsed == LOOK_SECS || elapsed <= window_secs - LAST_LOOK_SECS + LOOK_SECS,
            elapsed == LOOK_SECS * (times@.len() + 1),
            forall|i: int| 0 <= i < times@.len() ==> #[trigger] times@[i] == LOOK_SECS * (i + 1),
            forall|i: int|
                0 <= i < times@.len() ==> #[trigger] times@[i] <= window_secs - LAST_LOOK_SECS,
        decreases window_secs - LAST_LOOK_SECS + LOOK_SECS - elapsed,
    {
        times.push(elapsed);
        elapsed = elapsed + LOOK_SECS;
    }
    times
}

/// The price of bitcoin so many seconds into a market.
#[derive(Clone, Copy, Debug, PartialEq, Eq, Structural)]
pub struct CheckPoint {
    pub elapsed: i64,
    pub price: Figure,
}

/// The price of bitcoin over a market: at its beginning and at later looks.
#[derive(Debug)]
pub struct Course {
    pub start: Figure,
    pub points: Vec<CheckPoint>,
}

/// The looks at a market among the first `n` at which there is a price.
pub open spec fn points_upto(candles: Seq<Candle>, start_ts: int, n: int) -> Seq<CheckPoint>
    decreases n,
{
    if n <= 0 {
        Seq::empty()
    } else {
        let before = points_upto(candles, start_ts, n - 1);
        match price_then(candles, start_ts + LOOK_SECS * n) {
            Some(price) => before.push(CheckPoint { elapsed: (LOOK_SECS * n) as i64, price }),
            None => before,
        }
    }
}

/// How often a market of this length is looked at.
pub open spec fn looks(window_secs: int) -> int {
    if window_secs < LAST_LOOK_SECS {
        0
    } else {
        (window_secs - LAST_LOOK_SECS) / (LOOK_SECS as int)
    }
}

/// The price at which a market began, and the later looks at which there is a
/// price; `None` where there is no price of the beginning.
pub fn checkpoints(
    market: &MarketRecord,
    candles: &Vec<Candle>,
    index: &HashMap<i64, usize>,
    window_secs: i64,
) -> (r: Option<Course>)
    requires
        is_index(candles@, index@),
        i64::MIN <= window_secs - LAST_LOOK_SECS <= i64::MAX - LOOK_SECS,
        has_minute_before(market.start_ts as int),
        market.start_ts + LOOK_SECS * looks(window_secs as int) <= i64::MAX,
    ensures
        r is None <==> price_then(candles@, market.start_ts as int) is None,
        r is Some ==> Some(r->0.start) == price_then(candles@, market.start_ts as int),
        r is Some ==> r->0.points@ == points_upto(
            candles@,
            market.start_ts as int,
            looks(window_secs as int),
        ),
{
    let start = match price_at(candles, index, market.start_ts) {
        Some(p) => p,
        None => {
            return None;
        },
    };
    let times = check_times(window_secs);
    proof {
        if times@.len() > 0 {
            assert(times@[times@.len() - 1] <= window_secs - LAST_LOOK_SECS);
        }
        assert(times@.len() == looks(window_secs as int));
    }
    let mut points: Vec<CheckPoint> = Vec::new();
    let mut i: usize = 0;
    while i < times.len()
        invariant
            i <= times@.len(),
            is_index(candles@, index@),
            i64::MIN <= window_secs - LAST_LOOK_SECS <= i64::MAX - LOOK_SECS,
            has_minute_before(market.start_ts as int),
            market.start_ts + LOOK_SECS * looks(window_secs as int) <= i64::MAX,
            times@.len() == looks(window_secs as int),
            forall|k: int| 0 <= k < times@.len() ==> #[trigger] times@[k] == LOOK_SECS * (k + 1),
            forall|k: int|
                0 <= k < times@.len() ==> #[trigger] times@[k] <= window_secs - LAST_LOOK_SECS,
            points@ == points_upto(candles@, market.start_ts as int, i as int),
        decreases times@.len() - i,
    {
        let elapsed: i64 = times[i];
        match price_at(candles, index, market.start_ts + elapsed) {
            Some(price) => {
                points.push(CheckPoint { elapsed, price });
            },
            None => {},
        }
        i = i + 1;
    }
    Some(Course { start, points })
}

/// The side that a model favours and how sure it is of it, from the
/// probabilities of "up" and of "down".
pub fn favored(prob_up: Figure, prob_down: Figure) -> (r: (bool, Figure))
    ensures
        r.0 == fig(EVEN_ODDS).below(prob_up),
        r.1 == (if r.0 {
            prob_up
        } else {
            prob_down
        }),
{
    if Figure::from_bits(EVEN_ODDS).lt(prob_up) {
        (true, prob_up)
    } else {
        (false, prob_down)
    }
}

/// What a strategy sees at one look: the favoured side and its probability,
/// what it costs, the edge, the share of the bankroll that Kelly would bet, and
/// what is gained if the side wins or loses.
#[derive(Clone, Copy, Debug, PartialEq, Eq, Structural)]
pub struct SimPoint {
    pub elapsed: i64,
    pub up: bool,
    pub prob: Figure,
    pub ask: Figure,
    pub edge: Figure,
    pub kelly: Figure,
    pub win_pnl: Figure,
    pub loss_pnl: Figure,
}

impl SimPoint {
    /// The trade that is made at this look.
    pub open spec fn trade(self, slug: Seq<char>, up_won: bool) -> TradeSketch {
        TradeSketch {
            market_slug: slug,
            side_up: self.up,
            model_prob: self.prob,
            buy_price: self.ask,
            edge: self.edge,
            entry_elapsed: self.elapsed as int,
            outcome: if self.up == up_won {
                TradeOutcome::Win
            } else {
                TradeOutcome::Loss
            },
            pnl: if self.up == up_won {
                self.win_pnl
            } else {
                self.loss_pnl
            },
        }
    }

    /// The sniper trades at this look.
    pub open spec fn snipes(self, p: StrategyParams) -> bool {
        &&& self.elapsed >= p.min_elapsed_secs
        &&& !self.prob.below(p.min_confidence)
        &&& !p.max_ask.at_most(self.ask)
        &&& !self.edge.below(fig(LEAST_EDGE))
    }

    /// The Bayesian strategy trades at this look.
    pub open spec fn bets(self, p: BayesianParams) -> bool {
        &&& self.elapsed >= p.min_elapsed_secs
        &&& !self.edge.below(p.min_discrepancy)
        &&& !p.max_ask.at_most(self.ask)
        &&& !self.kelly.below(fig(LEAST_KELLY))
    }

    /// The sniper's model is confident at this look, late enough to trade.
    pub open spec fn confident(self, p: StrategyParams) -> bool {
        self.elapsed >= p.min_elapsed_secs && p.min_confidence.at_most(self.prob)
    }

    fn trade_exec(&self, market: &MarketRecord) -> (r: SimTrade)
        ensures
            r@ == self.trade(market.slug@, market.up_won),
    {
        let won: bool = self.up == market.up_won;
        SimTrade {
            market_slug: market.slug.clone(),
            side_up: self.up,
            model_prob: self.prob,
            buy_price: self.ask,
            edge: self.edge,
            entry_elapsed: self.elapsed,
            outcome: if won {
                TradeOutcome::Win
            } else {
                TradeOutcome::Loss
            },
            pnl: if won {
                self.win_pnl
            } else {
                self.loss_pnl
            },
        }
    }
}

/// The first look from `i` on at which the sniper trades, or the number of
/// looks.
pub open spec fn snipe_from(points: Seq<SimPoint>, p: StrategyParams, i: int) -> int
    decreases points.len() - i,
{
    if i >= points.len() {
        points.len() as int
    } else if points[i].snipes(p) {
        i
    } else {
        snipe_from(points, p, i + 1)
    }
}

/// Whether the model was right at the last of the first `n` looks at which it
/// was confident; `None` where it never was.
pub open spec fn confident_correct(points: Seq<SimPoint>, p: StrategyParams, up_won: bool, n: int) -> Option<
    bool,
>
    decreases n,
{
    if n <= 0 {
        None
    } else if points[n - 1].confident(p) {
        Some(points[n - 1].up == up_won)
    } else {
        confident_correct(points, p, up_won, n - 1)
    }
}

/// What the sniper would have done in a market.
#[derive(Debug)]
pub struct SimResult {
    pub trade: Option<SimTrade>,
    pub model_correct_when_confident: Option<bool>,
}

/// What the sniper would have done in a market: it trades at the first look
/// that passes every gate.
pub fn simulate_market(market: &MarketRecord, points: &Vec<SimPoint>, params: &StrategyParams) -> (r:
    SimResult)
    ensures
        ({
            let k = snipe_from(points@, *params, 0);
            &&& match r.trade {
                Some(t) => k < points@.len() && t@ == points@[k].trade(market.slug@, market.up_won),
                None => k >= points@.len(),
            }
            &&& r.model_correct_when_confident == confident_correct(
                points@,
                *params,
                market.up_won,
                if k < points@.len() {
                    k + 1
                } else {
                    k
                },
            )
        }),
{
    let mut correct: Option<bool> = None;
    let mut i: usize = 0;
    while i < points.len()
        invariant
            i <= points@.len(),
            snipe_from(points@, *params, 0) == snipe_from(points@, *params, i as int),
            correct == confident_correct(points@, *params, market.up_won, i as int),
        decreases points@.len() - i,
    {
        let point = points[i];
        if point.elapsed >= params.min_elapsed_secs {
            if params.min_confidence.le(point.prob) {
                correct = Some(point.up == market.up_won);
            }
            if !point.prob.lt(params.min_confidence) && !params.max_ask.le(point.ask)
                && !point.edge.lt(Figure::from_bits(LEAST_EDGE)) {
                return SimResult {
                    trade: Some(point.trade_exec(market)),
                    model_correct_when_confident: correct,
                };
            }
        }
        i = i + 1;
    }
    SimResult { trade: None, model_correct_when_confident: correct }
}

/// The first look from `i` on at which the Bayesian strategy trades, or the
/// number of looks.
pub open spec fn bet_from(points: Seq<SimPoint>, p: BayesianParams, i: int) -> int
    decreases points.len() - i,
{
    if i >= points.len() {
        points.len() as int
    } else if points[i].bets(p) {
        i
    } else {
        bet_from(points, p, i + 1)
    }
}

/// What the Bayesian strategy would have done in a market: it trades at the
/// first look that passes every gate.
pub fn simulate_market_bayesian(
    market: &MarketRecord,
    points: &Vec<SimPoint>,
    params: &BayesianParams,
) -> (r: Option<SimTrade>)
    ensures
        ({
            let k = bet_from(points@, *params, 0);
            match r {
                Some(t) => k < points@.len() && t@ == points@[k].trade(market.slug@, market.up_won),
                None => k >= points@.len(),
            }
        }),
{
    let mut i: usize = 0;
    while i < points.len()
        invariant
            i <= points@.len(),
            bet_from(points@, *params, 0) == bet_from(points@, *params, i as int),
        decreases points@.len() - i,
    {
        let point = points[i];
        if point.elapsed >= params.min_elapsed_secs && !point.edge.lt(params.min_discrepancy)
            && !params.max_ask.le(point.ask) && !point.kelly.lt(Figure::from_bits(LEAST_KELLY)) {
            return Some(point.trade_exec(market));
        }
        i = i + 1;
    }
    None
}

/// The prices that a move up to the beginning of a market is measured by: the
/// one at the beginning and the one before it; `None` where either is missing.
pub fn momentum_prices(
    market: &MarketRecord,
    candles: &Vec<Candle>,
    index: &HashMap<i64, usize>,
    lookback_secs: i64,
) -> (r: Option<(Figure, Figure)>)
    requires
        is_index(candles@, index@),
        has_minute_before(market.start_ts as int),
        market.start_ts - lookback_secs <= i64::MAX,
        has_minute_before(market.start_ts - lookback_secs),
    ensures
        r == (match (
            price_then(candles@, market.start_ts as int),
            price_then(candles@, market.start_ts - lookback_secs),
        ) {
            (Some(start), Some(past)) => Some((start, past)),
            _ => None,
        }),
{
    match price_at(candles, index, market.start_ts) {
        Some(start) => match price_at(candles, index, market.start_ts - lookback_secs) {
            Some(past) => Some((start, past)),
            None => None,
        },
        None => None,
    }
}

/// Frontloading trades on this move.
pub open spec fn frontloads(momentum: Figure, p: FrontloadParams) -> bool {
    !momentum.unsigned().below(p.momentum_threshold)
}

/// What frontloading would have done in a market: it buys when the market
/// opens, in the direction of a move that is large enough. `momentum` is the
/// move; the others are what is gained if the side wins or loses.
pub fn simulate_market_frontload(
    market: &MarketRecord,
    momentum: Figure,
    win_pnl: Figure,
    loss_pnl: Figure,
    params: &FrontloadParams,
) -> (r: Option<SimTrade>)
    ensures
        r is Some <==> frontloads(momentum, *params),
        r is Some ==> r->0@ == (SimPoint {
            elapsed: 0,
            up: fig(0).below(momentum),
            prob: fig(EVEN_ODDS),
            ask: params.entry_price,
            edge: fig(0),
            kelly: fig(0),
            win_pnl,
            loss_pnl,
        }).trade(market.slug@, market.up_won),
{
    if momentum.abs().lt(params.momentum_threshold) {
        return None;
    }
    let point = SimPoint {
        elapsed: 0,
        up: Figure::from_bits(0).lt(momentum),
        prob: Figure::from_bits(EVEN_ODDS),
        ask: params.entry_price,
        edge: Figure::from_bits(0),
        kelly: Figure::from_bits(0),
        win_pnl,
        loss_pnl,
    };
    Some(point.trade_exec(market))
}

/// How a model did at one look: how sure it was, and whether it was right.
#[derive(Clone, Copy, Debug, PartialEq, Eq, Structural)]
pub struct AccuracyRecord {
    pub elapsed_secs: i64,
    pub model_prob: Figure,
    pub correct: bool,
}

/// How a model did at one look, from the probabilities of "up" and of "down".
pub fn accuracy_at(market: &MarketRecord, elapsed: i64, prob_up: Figure, prob_down: Figure) -> (r:
    AccuracyRecord)
    ensures
        r == (AccuracyRecord {
            elapsed_secs: elapsed,
            model_prob: if fig(EVEN_ODDS).below(prob_up) {
                prob_up
            } else {
                prob_down
            },
            correct: fig(EVEN_ODDS).below(prob_up) == market.up_won,
        }),
{
    let (up, prob) = favored(prob_up, prob_down);
    AccuracyRecord { elapsed_secs: elapsed, model_prob: prob, correct: up == market.up_won }
}

proof fn lemma_snipe_from(points: Seq<SimPoint>, p: StrategyParams, i: int)
    requires
        0 <= i <= points.len(),
    ensures
        i <= snipe_from(points, p, i) <= points.len(),
        snipe_from(points, p, i) < points.len() ==> points[snipe_from(points, p, i)].snipes(p),
        forall|k: int| i <= k < snipe_from(points, p, i) ==> !(#[trigger] points[k]).snipes(p),
    decreases points.len() - i,
{
    if i < points.len() && !points[i].snipes(p) {
        lemma_snipe_from(points, p, i + 1);
    }
}

/// The sniper trades at most once in a market: at the first look that passes
/// every gate, and at none where no look does.
pub proof fn sniper_trades_at_the_first_chance(points: Seq<SimPoint>, p: StrategyParams)
    ensures
        0 <= snipe_from(points, p, 0) <= points.len(),
        snipe_from(points, p, 0) < points.len() ==> points[snipe_from(points, p, 0)].snipes(p),
        forall|k: int| 0 <= k < snipe_from(points, p, 0) ==> !(#[trigger] points[k]).snipes(p),
{
    lemma_snipe_from(points, p, 0);
}

proof fn lemma_bet_from(points: Seq<SimPoint>, p: BayesianParams, i: int)
    requires
        0 <= i <= points.len(),
    ensures
        i <= bet_from(points, p, i) <= points.len(),
        bet_from(points, p, i) < points.len() ==> points[bet_from(points, p, i)].bets(p),
        forall|k: int| i <= k < bet_from(points, p, i) ==> !(#[trigger] points[k]).bets(p),
    decreases points.len() - i,
{
    if i < points.len() && !points[i].bets(p) {
        lemma_bet_from(points, p, i + 1);
    }
}

/// The Bayesian strategy trades at most once in a market: at the first look
/// that passes every gate, and at none where no look does.
pub proof fn bayesian_trades_at_the_first_chance(points: Seq<SimPoint>, p: BayesianParams)
    ensures
        0 <= bet_from(points, p, 0) <= points.len(),
        bet_from(points, p, 0) < points.len() ==> points[bet_from(points, p, 0)].bets(p),
        forall|k: int| 0 <= k < bet_from(points, p, 0) ==> !(#[trigger] points[k]).bets(p),
{
    lemma_bet_from(points, p, 0);
}

/// A trade wins exactly where its side won, and gains accordingly.
pub proof fn trades_win_with_their_side(point: SimPoint, slug: Seq<char>, up_won: bool)
    ensures
        point.trade(slug, up_won).outcome == TradeOutcome::Win <==> point.trade(
            slug,
            up_won,
        ).side_up == up_won,
        point.trade(slug, up_won).pnl == (if point.up == up_won {
            point.win_pnl
        } else {
            point.loss_pnl
        }),
{
}

/// A trade of the sniper was made neither before the seconds that the parameters
/// ask for, nor below their confidence, nor at their highest ask or above it, nor
/// for less than the smallest edge; and whatever look meets all of these, the
/// trade was made at it or at an earlier one.
pub proof fn sniper_keeps_its_terms(
    points: Seq<SimPoint>,
    p: StrategyParams,
    slug: Seq<char>,
    up_won: bool,
    j: int,
)
    ensures
        ({
            let k = snipe_from(points, p, 0);
            let t = points[k].trade(slug, up_won);
            0 <= k < points.len() ==> {
                &&& t.entry_elapsed >= p.min_elapsed_secs
                &&& !t.model_prob.below(p.min_confidence)
                &&& !p.max_ask.at_most(t.buy_price)
                &&& !t.edge.below(fig(LEAST_EDGE))
            }
        }),
        0 <= j < points.len() && points[j].elapsed >= p.min_elapsed_secs && !points[j].prob.below(
            p.min_confidence,
        ) && !p.max_ask.at_most(points[j].ask) && !points[j].edge.below(fig(LEAST_EDGE)) ==> 0
            <= snipe_from(points, p, 0) <= j,
{
    lemma_snipe_from(points, p, 0);
}

/// Terms that are nowhere more lenient never lead to an earlier trade of the
/// sniper.
pub proof fn stricter_terms_snipe_no_earlier(
    points: Seq<SimPoint>,
    p: StrategyParams,
    q: StrategyParams,
)
    requires
        p.min_elapsed_secs <= q.min_elapsed_secs,
        p.min_confidence.at_most(q.min_confidence),
        q.max_ask.at_most(p.max_ask),
        forall|i: int|
            0 <= i < points.len() ==> !(#[trigger] points[i]).prob.is_nan()
                && !points[i].ask.is_nan(),
    ensures
        snipe_from(points, p, 0) <= snipe_from(points, q, 0),
{
    lemma_snipe_from(points, p, 0);
    lemma_snipe_from(points, q, 0);
    let k = snipe_from(points, q, 0);
    if k < points.len() {
        sniper_keeps_its_terms(points, p, Seq::empty(), true, k);
    }
}

/// A trade of the Bayesian strategy was made neither before the seconds that the
/// parameters ask for, nor below their discrepancy, nor at their highest ask or
/// above it, nor for less than the smallest bet; and whatever look meets all of
/// these, the trade was made at it or at an earlier one.
pub proof fn bayesian_keeps_its_terms(
    points: Seq<SimPoint>,
    p: BayesianParams,
    slug: Seq<char>,
    up_won: bool,
    j: int,
)
    ensures
        ({
            let k = bet_from(points, p, 0);
            let t = points[k].trade(slug, up_won);
            0 <= k < points.len() ==> {
                &&& t.entry_elapsed >= p.min_elapsed_secs
                &&& !t.edge.below(p.min_discrepancy)
                &&& !p.max_ask.at_most(t.buy_price)
                &&& !points[k].kelly.below(fig(LEAST_KELLY))
            }
        }),
        0 <= j < points.len() && points[j].elapsed >= p.min_elapsed_secs && !points[j].edge.below(
            p.min_discrepancy,
        ) && !p.max_ask.at_most(points[j].ask) && !points[j].kelly.below(fig(LEAST_KELLY)) ==> 0
            <= bet_from(points, p, 0) <= j,
{
    lemma_bet_from(points, p, 0);
}

/// A trade says what its look saw: the side, how likely it was, what it cost and
/// when; it wins where that side won, and gains what the look said it would.
pub proof fn trades_say_what_was_seen(point: SimPoint, slug: Seq<char>, up_won: bool)
    ensures
        ({
            let t = point.trade(slug, up_won);
            &&& t.market_slug == slug
            &&& t.side_up == point.up
            &&& t.model_prob == point.prob
            &&& t.buy_price == point.ask
            &&& t.edge == point.edge
            &&& t.entry_elapsed == point.elapsed
            &&& (point.up && up_won) || (!point.up && !up_won) ==> t.outcome == TradeOutcome::Win
                && t.pnl == point.win_pnl
            &&& (point.up && !up_won) || (!point.up && up_won) ==> t.outcome == TradeOutcome::Loss
                && t.pnl == point.loss_pnl
        }),
{
}

/// The model's confidence is judged by the last look that was late enough and at
/// least as sure as the parameters ask for, and not at all without such a look.
pub proof fn confidence_is_judged_at_the_last_look(
    points: Seq<SimPoint>,
    p: StrategyParams,
    up_won: bool,
    n: int,
    j: int,
)
    requires
        0 <= j < n <= points.len(),
        forall|i: int|
            j < i < n ==> (#[trigger] points[i]).elapsed < p.min_elapsed_secs
                || !p.min_confidence.at_most(points[i].prob),
    ensures
        points[j].elapsed >= p.min_elapsed_secs && p.min_confidence.at_most(points[j].prob)
            ==> confident_correct(points, p, up_won, n) == Some(points[j].up == up_won),
        points[j].elapsed < p.min_elapsed_secs || !p.min_confidence.at_most(points[j].prob)
            ==> confident_correct(points, p, up_won, n) == confident_correct(points, p, up_won, j),
        confident_correct(points, p, up_won, 0) is None,
    decreases n,
{
    if n > j + 1 {
        assert(points[n - 1].elapsed < p.min_elapsed_secs || !p.min_confidence.at_most(
            points[n - 1].prob,
        ));
        confidence_is_judged_at_the_last_look(points, p, up_won, n - 1, j);
    }
}

/// Frontloading leaves a move alone exactly where it stays within the threshold
/// both ways; one that is no number stays within nothing.
pub proof fn frontloading_follows_moves_of_either_sign(momentum: Figure, p: FrontloadParams)
    ensures
        !frontloads(momentum, p) <==> {
            &&& !momentum.is_nan()
            &&& !p.momentum_threshold.is_nan()
            &&& momentum.rank() < p.momentum_threshold.rank()
            &&& -momentum.rank() < p.momentum_threshold.rank()
        },
{
}

/// The looks at a market are those of the regular ones at which there is a
/// price, in order, each with the price of its moment.
pub proof fn looks_are_those_with_a_price(candles: Seq<Candle>, start_ts: int, n: int, m: int)
    requires
        0 <= n,
        LOOK_SECS * n <= i64::MAX,
    ensures
        forall|i: int|
            0 <= i < points_upto(candles, start_ts, n).len() ==> {
                let point = #[trigger] points_upto(candles, start_ts, n)[i];
                &&& 0 < point.elapsed <= LOOK_SECS * n
                &&& point.elapsed as int % LOOK_SECS as int == 0
                &&& price_then(candles, start_ts + point.elapsed) == Some(point.price)
            },
        forall|i: int, j: int|
            0 <= i < j < points_upto(candles, start_ts, n).len() ==> (#[trigger] points_upto(
                candles,
                start_ts,
                n,
            )[i]).elapsed < (#[trigger] points_upto(candles, start_ts, n)[j]).elapsed,
        1 <= m <= n && price_then(candles, start_ts + LOOK_SECS * m) is Some ==> exists|i: int|
            0 <= i < points_upto(candles, start_ts, n).len() && (#[trigger] points_upto(
                candles,
                start_ts,
                n,
            )[i]).elapsed == LOOK_SECS * m,
    decreases n,
{
    if n > 0 {
        let before = points_upto(candles, start_ts, n - 1);
        let all = points_upto(candles, start_ts, n);
        looks_are_those_with_a_price(candles, start_ts, n - 1, m);
        if 1 <= m < n && price_then(candles, start_ts + LOOK_SECS * m) is Some {
            let i = choose|i: int| 0 <= i < before.len() && (#[trigger] before[i]).elapsed
                == LOOK_SECS * m;
            assert(all[i] == before[i]);
        }
        if price_then(candles, start_ts + LOOK_SECS * n) is Some {
            assert(all[before.len() as int].elapsed == LOOK_SECS * n);
            assert((LOOK_SECS * n) % (LOOK_SECS as int) == 0) by (nonlinear_arith)
                requires
                    LOOK_SECS == 30,
            ;
        }
        assert forall|i: int| 0 <= i < all.len() implies ({
            let point = #[trigger] all[i];
            &&& 0 < point.elapsed <= LOOK_SECS * n
            &&& point.elapsed as int % LOOK_SECS as int == 0
            &&& price_then(candles, start_ts + point.elapsed) == Some(point.price)
        }) by {
            if i < before.len() {
                assert(all[i] == before[i]);
            }
        }
        assert forall|i: int, j: int| 0 <= i < j < all.len() implies (#[trigger] all[i]).elapsed
            < (#[trigger] all[j]).elapsed by {
            assert(all[i] == before[i]);
            if j < before.len() {
                assert(all[j] == before[j]);
            }
        }
    }
}

/// The last regular look leaves the seconds that it has to, and another would
/// not.
pub proof fn looks_end_in_time(window_secs: int)
    requires
        window_secs >= LAST_LOOK_SECS,
    ensures
        LOOK_SECS * looks(window_secs) + LAST_LOOK_SECS <= window_secs,
        LOOK_SECS * (looks(window_secs) + 1) + LAST_LOOK_SECS > window_secs,
{
}

} // verus!
