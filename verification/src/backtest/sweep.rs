//! Trying every combination of parameters, and ranking what comes of it.

use vstd::arithmetic::div_mod::lemma_fundamental_div_mod_converse;
use vstd::prelude::*;

use crate::backtest::simulate::{
    BayesianParams, FrontloadParams, StrategyParams, DEFAULT_KELLY,
};
use crate::figure::{fig, Figure};
use crate::order::{
    fits_at, kept_was_there, ordered, ordering_is_stable, ordering_sorts, placed_where_it_fits,
};

verus! {

/// How many volatilities are tried.
pub const VOLATILITIES: usize = 5;

/// How many combinations are tried for the sniper.
pub const SNIPER_CONFIGS: usize = 1875;

/// How many combinations are tried for the Bayesian strategy.
pub const BAYESIAN_CONFIGS: usize = 720;

/// How many combinations are tried for frontloading.
pub const FRONTLOAD_CONFIGS: usize = 100;

/// How many trades a combination of the sniper or of the Bayesian strategy has
/// to have made to be ranked.
pub const MIN_TRADES: usize = 20;

/// How many trades a combination of frontloading has to have made to be ranked.
pub const MIN_FRONTLOAD_TRADES: usize = 10;

/// 0.50: the entry price of frontloading unless another is tried.
pub const DEFAULT_ENTRY_PRICE: u64 = 0x3FE0_0000_0000_0000;

/// 20: the threshold of frontloading unless another is tried.
pub const DEFAULT_THRESHOLD: u64 = 0x4034_0000_0000_0000;

/// The lookback of frontloading unless another is tried.
pub const DEFAULT_LOOKBACK: i64 = 300;

/// How far bitcoin may move in a window: 30, 50, 80, 120, 200.
pub open spec fn volatilities() -> Seq<u64> {
    seq![
        0x403E_0000_0000_0000u64,
        0x4049_0000_0000_0000u64,
        0x4054_0000_0000_0000u64,
        0x405E_0000_0000_0000u64,
        0x4069_0000_0000_0000u64,
    ]
}

/// The `i`-th volatility that is tried.
pub fn volatility_at(i: usize) -> (r: u64)
    requires
        i < 5,
    ensures
        r == volatilities()[i as int],
{
    if i == 0 {
        0x403E_0000_0000_0000
    } else if i == 1 {
        0x4049_0000_0000_0000
    } else if i == 2 {
        0x4054_0000_0000_0000
    } else if i == 3 {
        0x405E_0000_0000_0000
    } else {
        0x4069_0000_0000_0000
    }
}

/// How sure the sniper has to be: 0.90, 0.93, 0.95, 0.97, 0.99.
pub open spec fn confidences() -> Seq<u64> {
    seq![
        0x3FEC_CCCC_CCCC_CCCDu64,
        0x3FED_C28F_5C28_F5C3u64,
        0x3FEE_6666_6666_6666u64,
        0x3FEF_0A3D_70A3_D70Au64,
        0x3FEF_AE14_7AE1_47AEu64,
    ]
}

fn confidence_at(i: usize) -> (r: u64)
    requires
        i < 5,
    ensures
        r == confidences()[i as int],
{
    if i == 0 {
        0x3FEC_CCCC_CCCC_CCCD
    } else if i == 1 {
        0x3FED_C28F_5C28_F5C3
    } else if i == 2 {
        0x3FEE_6666_6666_6666
    } else if i == 3 {
        0x3FEF_0A3D_70A3_D70A
    } else {
        0x3FEF_AE14_7AE1_47AE
    }
}

/// The highest asks of the sniper: 0.85, 0.88, 0.90, 0.92, 0.95.
pub open spec fn sniper_asks() -> Seq<u64> {
    seq![
        0x3FEB_3333_3333_3333u64,
        0x3FEC_28F5_C28F_5C29u64,
        0x3FEC_CCCC_CCCC_CCCDu64,
        0x3FED_70A3_D70A_3D71u64,
        0x3FEE_6666_6666_6666u64,
    ]
}

fn sniper_ask_at(i: usize) -> (r: u64)
    requires
        i < 5,
    ensures
        r == sniper_asks()[i as int],
{
    if i == 0 {
        0x3FEB_3333_3333_3333
    } else if i == 1 {
        0x3FEC_28F5_C28F_5C29
    } else if i == 2 {
        0x3FEC_CCCC_CCCC_CCCD
    } else if i == 3 {
        0x3FED_70A3_D70A_3D71
    } else {
        0x3FEE_6666_6666_6666
    }
}

/// The earliest seconds of the sniper.
pub open spec fn sniper_delays() -> Seq<i64> {
    seq![
        0i64,
        120i64,
        180i64,
        210i64,
        240i64,
    ]
}

fn sniper_delay_at(i: usize) -> (r: i64)
    requires
        i < 5,
    ensures
        r == sniper_delays()[i as int],
{
    if i == 0 {
        0
    } else if i == 1 {
        120
    } else if i == 2 {
        180
    } else if i == 3 {
        210
    } else {
        240
    }
}

/// What the market is behind by: 0.02, 0.03, 0.05.
pub open spec fn lags() -> Seq<u64> {
    seq![
        0x3F94_7AE1_47AE_147Bu64,
        0x3F9E_B851_EB85_1EB8u64,
        0x3FA9_9999_9999_999Au64,
    ]
}

fn lag_at(i: usize) -> (r: u64)
    requires
        i < 3,
    ensures
        r == lags()[i as int],
{
    if i == 0 {
        0x3F94_7AE1_47AE_147B
    } else if i == 1 {
        0x3F9E_B851_EB85_1EB8
    } else {
        0x3FA9_9999_9999_999A
    }
}

/// How steep the evidence is: 4, 8, 12, 16, 20.
pub open spec fn sensitivities() -> Seq<u64> {
    seq![
        0x4010_0000_0000_0000u64,
        0x4020_0000_0000_0000u64,
        0x4028_0000_0000_0000u64,
        0x4030_0000_0000_0000u64,
        0x4034_0000_0000_0000u64,
    ]
}

fn sensitivity_at(i: usize) -> (r: u64)
    requires
        i < 5,
    ensures
        r == sensitivities()[i as int],
{
    if i == 0 {
        0x4010_0000_0000_0000
    } else if i == 1 {
        0x4020_0000_0000_0000
    } else if i == 2 {
        0x4028_0000_0000_0000
    } else if i == 3 {
        0x4030_0000_0000_0000
    } else {
        0x4034_0000_0000_0000
    }
}

/// The smallest edges: 0.01, 0.03, 0.05, 0.08.
pub open spec fn discrepancies() -> Seq<u64> {
    seq![
        0x3F84_7AE1_47AE_147Bu64,
        0x3F9E_B851_EB85_1EB8u64,
        0x3FA9_9999_9999_999Au64,
        0x3FB4_7AE1_47AE_147Bu64,
    ]
}

fn discrepancy_at(i: usize) -> (r: u64)
    requires
        i < 4,
    ensures
        r == discrepancies()[i as int],
{
    if i == 0 {
        0x3F84_7AE1_47AE_147B
    } else if i == 1 {
        0x3F9E_B851_EB85_1EB8
    } else if i == 2 {
        0x3FA9_9999_9999_999A
    } else {
        0x3FB4_7AE1_47AE_147B
    }
}

/// The earliest seconds of the Bayesian strategy.
pub open spec fn bayesian_delays() -> Seq<i64> {
    seq![
        0i64,
        120i64,
        180i64,
        240i64,
    ]
}

fn bayesian_delay_at(i: usize) -> (r: i64)
    requires
        i < 4,
    ensures
        r == bayesian_delays()[i as int],
{
    if i == 0 {
        0
    } else if i == 1 {
        120
    } else if i == 2 {
        180
    } else {
        240
    }
}

/// The highest asks of the Bayesian strategy: 0.85, 0.90, 0.95.
pub open spec fn bayesian_asks() -> Seq<u64> {
    seq![
        0x3FEB_3333_3333_3333u64,
        0x3FEC_CCCC_CCCC_CCCDu64,
        0x3FEE_6666_6666_6666u64,
    ]
}

fn bayesian_ask_at(i: usize) -> (r: u64)
    requires
        i < 3,
    ensures
        r == bayesian_asks()[i as int],
{
    if i == 0 {
        0x3FEB_3333_3333_3333
    } else if i == 1 {
        0x3FEC_CCCC_CCCC_CCCD
    } else {
        0x3FEE_6666_6666_6666
    }
}

/// How far back a move is measured.
pub open spec fn lookbacks() -> Seq<i64> {
    seq![
        60i64,
        120i64,
        180i64,
        300i64,
        600i64,
    ]
}

fn lookback_at(i: usize) -> (r: i64)
    requires
        i < 5,
    ensures
        r == lookbacks()[i as int],
{
    if i == 0 {
        60
    } else if i == 1 {
        120
    } else if i == 2 {
        180
    } else if i == 3 {
        300
    } else {
        600
    }
}

/// The smallest moves: 5, 10, 20, 50, 100.
pub open spec fn thresholds() -> Seq<u64> {
    seq![
        0x4014_0000_0000_0000u64,
        0x4024_0000_0000_0000u64,
        0x4034_0000_0000_0000u64,
        0x4049_0000_0000_0000u64,
        0x4059_0000_0000_0000u64,
    ]
}

fn threshold_at(i: usize) -> (r: u64)
    requires
        i < 5,
    ensures
        r == thresholds()[i as int],
{
    if i == 0 {
        0x4014_0000_0000_0000
    } else if i == 1 {
        0x4024_0000_0000_0000
    } else if i == 2 {
        0x4034_0000_0000_0000
    } else if i == 3 {
        0x4049_0000_0000_0000
    } else {
        0x4059_0000_0000_0000
    }
}

/// What a token costs when a market opens: 0.48, 0.50, 0.52, 0.55.
pub open spec fn entry_prices() -> Seq<u64> {
    seq![
        0x3FDE_B851_EB85_1EB8u64,
        0x3FE0_0000_0000_0000u64,
        0x3FE0_A3D7_0A3D_70A4u64,
        0x3FE1_9999_9999_999Au64,
    ]
}

fn entry_price_at(i: usize) -> (r: u64)
    requires
        i < 4,
    ensures
        r == entry_prices()[i as int],
{
    if i == 0 {
        0x3FDE_B851_EB85_1EB8
    } else if i == 1 {
        0x3FE0_0000_0000_0000
    } else if i == 2 {
        0x3FE0_A3D7_0A3D_70A4
    } else {
        0x3FE1_9999_9999_999A
    }
}

/// The `i`-th combination of the sniper. The lag varies fastest, then the
/// earliest second, the highest ask, the confidence and the volatility.
pub open spec fn sniper_combination(i: int, size: Figure) -> StrategyParams {
    StrategyParams {
        volatility: fig(volatilities()[i / 375]),
        min_confidence: fig(confidences()[i / 75 % 5]),
        max_ask: fig(sniper_asks()[i / 15 % 5]),
        min_elapsed_secs: sniper_delays()[i / 3 % 5],
        market_lag: fig(lags()[i % 3]),
        size,
    }
}

/// The `i`-th combination of the sniper.
pub fn sniper_config(i: usize, size: Figure) -> (r: StrategyParams)
    requires
        i < SNIPER_CONFIGS,
    ensures
        r == sniper_combination(i as int, size),
{
    StrategyParams {
        volatility: Figure::from_bits(volatility_at(i / 375)),
        min_confidence: Figure::from_bits(confidence_at(i / 75 % 5)),
        max_ask: Figure::from_bits(sniper_ask_at(i / 15 % 5)),
        min_elapsed_secs: sniper_delay_at(i / 3 % 5),
        market_lag: Figure::from_bits(lag_at(i % 3)),
        size,
    }
}

/// The `i`-th combination of the Bayesian strategy. The highest ask varies
/// fastest, then the lag, the earliest second, the edge and the sensitivity.
pub open spec fn bayesian_combination(i: int, size: Figure) -> BayesianParams {
    BayesianParams {
        sensitivity: fig(sensitivities()[i / 144]),
        min_discrepancy: fig(discrepancies()[i / 36 % 4]),
        kelly_fraction: fig(DEFAULT_KELLY),
        min_elapsed_secs: bayesian_delays()[i / 9 % 4],
        max_ask: fig(bayesian_asks()[i % 3]),
        market_lag: fig(lags()[i / 3 % 3]),
        size,
    }
}

/// The `i`-th combination of the Bayesian strategy.
pub fn bayesian_config(i: usize, size: Figure) -> (r: BayesianParams)
    requires
        i < BAYESIAN_CONFIGS,
    ensures
        r == bayesian_combination(i as int, size),
{
    BayesianParams {
        sensitivity: Figure::from_bits(sensitivity_at(i / 144)),
        min_discrepancy: Figure::from_bits(discrepancy_at(i / 36 % 4)),
        kelly_fraction: Figure::from_bits(DEFAULT_KELLY),
        min_elapsed_secs: bayesian_delay_at(i / 9 % 4),
        max_ask: Figure::from_bits(bayesian_ask_at(i % 3)),
        market_lag: Figure::from_bits(lag_at(i / 3 % 3)),
        size,
    }
}

/// The `i`-th combination of frontloading. The entry price varies fastest, then
/// the threshold and the lookback.
pub open spec fn frontload_combination(i: int, size: Figure) -> FrontloadParams {
    FrontloadParams {
        lookback_secs: lookbacks()[i / 20],
        momentum_threshold: fig(thresholds()[i / 4 % 5]),
        entry_price: fig(entry_prices()[i % 4]),
        size,
    }
}

/// The `i`-th combination of frontloading.
pub fn frontload_config(i: usize, size: Figure) -> (r: FrontloadParams)
    requires
        i < FRONTLOAD_CONFIGS,
    ensures
        r == frontload_combination(i as int, size),
        60 <= r.lookback_secs <= 600,
{
    FrontloadParams {
        lookback_secs: lookback_at(i / 20),
        momentum_threshold: Figure::from_bits(threshold_at(i / 4 % 5)),
        entry_price: Figure::from_bits(entry_price_at(i % 4)),
        size,
    }
}

/// The parameters of frontloading unless others are tried.
pub fn frontload_default(size: Figure) -> (r: FrontloadParams)
    ensures
        r == (FrontloadParams {
            lookback_secs: DEFAULT_LOOKBACK,
            momentum_threshold: fig(DEFAULT_THRESHOLD),
            entry_price: fig(DEFAULT_ENTRY_PRICE),
            size,
        }),
{
    FrontloadParams {
        lookback_secs: DEFAULT_LOOKBACK,
        momentum_threshold: Figure::from_bits(DEFAULT_THRESHOLD),
        entry_price: Figure::from_bits(DEFAULT_ENTRY_PRICE),
        size,
    }
}

/// Every combination of the sniper's parameters is tried.
pub proof fn sniper_tries_every_combination(v: int, c: int, a: int, e: int, l: int, size: Figure)
    requires
        0 <= v < 5,
        0 <= c < 5,
        0 <= a < 5,
        0 <= e < 5,
        0 <= l < 3,
    ensures
        exists|i: int|
            0 <= i < SNIPER_CONFIGS && #[trigger] sniper_combination(i, size) == (StrategyParams {
                volatility: fig(volatilities()[v]),
                min_confidence: fig(confidences()[c]),
                max_ask: fig(sniper_asks()[a]),
                min_elapsed_secs: sniper_delays()[e],
                market_lag: fig(lags()[l]),
                size,
            }),
{
    let i = 375 * v + 75 * c + 15 * a + 3 * e + l;
    lemma_fundamental_div_mod_converse(i, 3, 125 * v + 25 * c + 5 * a + e, l);
    lemma_fundamental_div_mod_converse(i, 15, 25 * v + 5 * c + a, 3 * e + l);
    lemma_fundamental_div_mod_converse(i, 75, 5 * v + c, 15 * a + 3 * e + l);
    lemma_fundamental_div_mod_converse(i, 375, v, 75 * c + 15 * a + 3 * e + l);
    lemma_fundamental_div_mod_converse(125 * v + 25 * c + 5 * a + e, 5, 25 * v + 5 * c + a, e);
    lemma_fundamental_div_mod_converse(25 * v + 5 * c + a, 5, 5 * v + c, a);
    lemma_fundamental_div_mod_converse(5 * v + c, 5, v, c);
    assert(0 <= i < SNIPER_CONFIGS && sniper_combination(i, size) == (StrategyParams {
        volatility: fig(volatilities()[v]),
        min_confidence: fig(confidences()[c]),
        max_ask: fig(sniper_asks()[a]),
        min_elapsed_secs: sniper_delays()[e],
        market_lag: fig(lags()[l]),
        size,
    }));
}

/// Every combination of the Bayesian strategy's parameters is tried.
pub proof fn bayesian_tries_every_combination(s: int, d: int, e: int, l: int, a: int, size: Figure)
    requires
        0 <= s < 5,
        0 <= d < 4,
        0 <= e < 4,
        0 <= l < 3,
        0 <= a < 3,
    ensures
        exists|i: int|
            0 <= i < BAYESIAN_CONFIGS && #[trigger] bayesian_combination(i, size) == (
            BayesianParams {
                sensitivity: fig(sensitivities()[s]),
                min_discrepancy: fig(discrepancies()[d]),
                kelly_fraction: fig(DEFAULT_KELLY),
                min_elapsed_secs: bayesian_delays()[e],
                max_ask: fig(bayesian_asks()[a]),
                market_lag: fig(lags()[l]),
                size,
            }),
{
    let i = 144 * s + 36 * d + 9 * e + 3 * l + a;
    lemma_fundamental_div_mod_converse(i, 3, 48 * s + 12 * d + 3 * e + l, a);
    lemma_fundamental_div_mod_converse(i, 9, 16 * s + 4 * d + e, 3 * l + a);
    lemma_fundamental_div_mod_converse(i, 36, 4 * s + d, 9 * e + 3 * l + a);
    lemma_fundamental_div_mod_converse(i, 144, s, 36 * d + 9 * e + 3 * l + a);
    lemma_fundamental_div_mod_converse(48 * s + 12 * d + 3 * e + l, 3, 16 * s + 4 * d + e, l);
    lemma_fundamental_div_mod_converse(16 * s + 4 * d + e, 4, 4 * s + d, e);
    lemma_fundamental_div_mod_converse(4 * s + d, 4, s, d);
    assert(0 <= i < BAYESIAN_CONFIGS && bayesian_combination(i, size) == (BayesianParams {
        sensitivity: fig(sensitivities()[s]),
        min_discrepancy: fig(discrepancies()[d]),
        kelly_fraction: fig(DEFAULT_KELLY),
        min_elapsed_secs: bayesian_delays()[e],
        max_ask: fig(bayesian_asks()[a]),
        market_lag: fig(lags()[l]),
        size,
    }));
}

/// Every combination of frontloading's parameters is tried.
pub proof fn frontload_tries_every_combination(l: int, t: int, e: int, size: Figure)
    requires
        0 <= l < 5,
        0 <= t < 5,
        0 <= e < 4,
    ensures
        exists|i: int|
            0 <= i < FRONTLOAD_CONFIGS && #[trigger] frontload_combination(i, size) == (
            FrontloadParams {
                lookback_secs: lookbacks()[l],
                momentum_threshold: fig(thresholds()[t]),
                entry_price: fig(entry_prices()[e]),
                size,
            }),
{
    let i = 20 * l + 4 * t + e;
    assert(i / 20 == l && i / 4 % 5 == t && i % 4 == e);
    assert(0 <= i < FRONTLOAD_CONFIGS && frontload_combination(i, size) == (FrontloadParams {
        lookback_secs: lookbacks()[l],
        momentum_threshold: fig(thresholds()[t]),
        entry_price: fig(entry_prices()[e]),
        size,
    }));
}

/// What came of a combination: how many trades, how many of them won, and what
/// they gained. `config` is the number of the combination.
#[derive(Clone, Copy, Debug, PartialEq, Eq, Structural)]
pub struct SweepResult {
    pub config: usize,
    pub trades: usize,
    pub wins: usize,
    pub win_rate: Figure,
    pub net_pnl: Figure,
    pub avg_buy_price: Figure,
    pub pnl_per_trade: Figure,
}

/// What results are ranked by: the largest gain comes first.
pub open spec fn gain_key() -> spec_fn(SweepResult) -> int {
    |r: SweepResult| -r.net_pnl.rank()
}

/// The results with enough trades, in order.
pub open spec fn with_trades(s: Seq<SweepResult>, min_trades: int) -> Seq<SweepResult> {
    s.filter(|r: SweepResult| r.trades >= min_trades)
}

/// The results with enough trades, from the largest gain to the smallest, those
/// of one gain as they came.
pub open spec fn ranking(s: Seq<SweepResult>, min_trades: int) -> Seq<SweepResult> {
    ordered(with_trades(s, min_trades), gain_key())
}

fn keep_traded(results: &Vec<SweepResult>, min_trades: usize) -> (r: Vec<SweepResult>)
    ensures
        r@ == with_trades(results@, min_trades as int),
{
    let mut kept: Vec<SweepResult> = Vec::new();
    let mut i: usize = 0;
    let ghost enough = |x: SweepResult| x.trades >= min_trades as int;
    assert(results@.take(0).filter(enough) =~= Seq::empty()) by {
        reveal(Seq::filter);
    }
    while i < results.len()
        invariant
            i <= results@.len(),
            enough == (|x: SweepResult| x.trades >= min_trades as int),
            kept@ == results@.take(i as int).filter(enough),
        decreases results@.len() - i,
    {
        assert(results@.take(i + 1).drop_last() =~= results@.take(i as int));
        assert(results@.take(i + 1).last() == results@[i as int]);
        proof {
            reveal(Seq::filter);
        }
        if results[i].trades >= min_trades {
            kept.push(results[i]);
        }
        i = i + 1;
    }
    assert(results@.take(i as int) =~= results@);
    kept
}

fn sort_results(results: &Vec<SweepResult>) -> (r: Vec<SweepResult>)
    requires
        forall|i: int| 0 <= i < results@.len() ==> !(#[trigger] results@[i]).net_pnl.is_nan(),
    ensures
        r@ == ordered(results@, gain_key()),
{
    let mut sorted: Vec<SweepResult> = Vec::new();
    let mut i: usize = 0;
    assert(results@.take(0) =~= Seq::empty());
    while i < results.len()
        invariant
            i <= results@.len(),
            forall|k: int| 0 <= k < results@.len() ==> !(#[trigger] results@[k]).net_pnl.is_nan(),
            forall|k: int| 0 <= k < sorted@.len() ==> !(#[trigger] sorted@[k]).net_pnl.is_nan(),
            sorted@ == ordered(results@.take(i as int), gain_key()),
        decreases results@.len() - i,
    {
        let result = results[i];
        proof {
            ordering_sorts(results@.take(i as int), gain_key());
        }
        let mut pos: usize = sorted.len();
        while pos > 0 && sorted[pos - 1].net_pnl.lt(result.net_pnl)
            invariant
                pos <= sorted@.len(),
                !result.net_pnl.is_nan(),
                forall|k: int| 0 <= k < sorted@.len() ==> !(#[trigger] sorted@[k]).net_pnl.is_nan(),
                forall|k: int|
                    pos <= k < sorted@.len() ==> gain_key()(#[trigger] sorted@[k]) > gain_key()(
                        result,
                    ),
            decreases pos,
        {
            pos = pos - 1;
        }
        proof {
            assert forall|k: int| 0 <= k < pos implies gain_key()(#[trigger] sorted@[k])
                <= gain_key()(result) by {
                assert(!sorted@[pos - 1].net_pnl.is_nan());
                assert(gain_key()(sorted@[k]) <= gain_key()(sorted@[pos - 1]));
            }
            assert(fits_at(sorted@, gain_key(), result, pos as int));
            placed_where_it_fits(sorted@, gain_key(), result, pos as int);
        }
        let ghost before = sorted@;
        sorted.insert(pos, result);
        assert forall|k: int| 0 <= k < sorted@.len() implies !(
        #[trigger] sorted@[k]).net_pnl.is_nan() by {
            if k < pos {
                assert(sorted@[k] == before[k]);
            } else if k > pos {
                assert(sorted@[k] == before[k - 1]);
            }
        }
        assert(results@.take(i + 1).drop_last() =~= results@.take(i as int));
        assert(results@.take(i + 1).last() == result);
        i = i + 1;
    }
    assert(results@.take(i as int) =~= results@);
    sorted
}

/// The results with enough trades, from the largest gain to the smallest. Where
/// there are two or more of them, every gain is a number.
pub fn rank_results(results: &Vec<SweepResult>, min_trades: usize) -> (r: Vec<SweepResult>)
    requires
        with_trades(results@, min_trades as int).len() <= 1 || forall|i: int|
            0 <= i < results@.len() && results@[i].trades >= min_trades ==> !(
            #[trigger] results@[i]).net_pnl.is_nan(),
    ensures
        r@ == ranking(results@, min_trades as int),
{
    let kept = keep_traded(results, min_trades);
    if kept.len() <= 1 {
        proof {
            if kept@.len() == 1 {
                assert(ordered(kept@.drop_last(), gain_key()) =~= Seq::empty());
            }
        }
        assert(ordered(kept@, gain_key()) =~= kept@);
        return kept;
    }
    proof {
        let enough = |x: SweepResult| x.trades >= min_trades as int;
        assert forall|i: int| 0 <= i < kept@.len() implies !(#[trigger] kept@[i]).net_pnl.is_nan() by {
            let x = kept@[i];
            assert(kept@.contains(x));
            kept_was_there(results@, enough, x);
            let k = choose|k: int| 0 <= k < results@.len() && results@[k] == x;
            assert(!results@[k].net_pnl.is_nan());
        }
    }
    sort_results(&kept)
}

/// The first results of a ranking, at most `n`.
pub fn best_results(ranked: &Vec<SweepResult>, n: usize) -> (r: Vec<SweepResult>)
    ensures
        r@ == ranked@.take(if n < ranked@.len() {
            n as int
        } else {
            ranked@.len() as int
        }),
{
    let mut out: Vec<SweepResult> = Vec::new();
    let mut i: usize = 0;
    while i < n && i < ranked.len()
        invariant
            i <= ranked@.len(),
            i <= n,
            out@ == ranked@.take(i as int),
        decreases ranked@.len() - i,
    {
        out.push(ranked[i]);
        i = i + 1;
    }
    out
}

/// The last results of a ranking, the worst first, at most `n`.
pub fn worst_results(ranked: &Vec<SweepResult>, n: usize) -> (r: Vec<SweepResult>)
    ensures
        r@.len() == (if n < ranked@.len() {
            n as int
        } else {
            ranked@.len() as int
        }),
        forall|i: int| 0 <= i < r@.len() ==> #[trigger] r@[i] == ranked@[ranked@.len() - 1 - i],
{
    let mut out: Vec<SweepResult> = Vec::new();
    let mut i: usize = 0;
    while i < n && i < ranked.len()
        invariant
            i <= ranked@.len(),
            i <= n,
            out@.len() == i,
            forall|k: int| 0 <= k < i ==> #[trigger] out@[k] == ranked@[ranked@.len() - 1 - k],
        decreases ranked@.len() - i,
    {
        out.push(ranked[ranked.len() - 1 - i]);
        i = i + 1;
    }
    out
}

/// The best combination is one that was tried with enough trades, and none of
/// those gained more.
pub proof fn best_is_unbeaten(s: Seq<SweepResult>, min_trades: int, j: int)
    requires
        forall|i: int|
            0 <= i < s.len() && s[i].trades >= min_trades ==> !(#[trigger] s[i]).net_pnl.is_nan(),
        0 <= j < s.len(),
        s[j].trades >= min_trades,
    ensures
        ranking(s, min_trades).len() > 0,
        s.contains(ranking(s, min_trades)[0]),
        ranking(s, min_trades)[0].trades >= min_trades,
        s[j].net_pnl.at_most(ranking(s, min_trades)[0].net_pnl),
{
    broadcast use vstd::seq_lib::group_filter_ensures;
    broadcast use vstd::seq_lib::group_to_multiset_ensures;

    let enough = |r: SweepResult| r.trades >= min_trades;
    let kept = with_trades(s, min_trades);
    let ranked = ranking(s, min_trades);
    assert(enough(s[j]));
    assert(kept.contains(s[j]));
    ordering_sorts(kept, gain_key());
    assert(kept.to_multiset().count(s[j]) > 0);
    assert(ranked.to_multiset().count(s[j]) > 0);
    assert(ranked.contains(s[j]));
    let k = choose|k: int| 0 <= k < ranked.len() && ranked[k] == s[j];
    let best = ranked[0];
    assert(ranked.contains(best));
    assert(ranked.to_multiset().count(best) > 0);
    assert(kept.to_multiset().count(best) > 0);
    assert(kept.contains(best));
    kept_was_there(s, enough, best);
    let b = choose|b: int| 0 <= b < s.len() && s[b] == best;
    assert(!s[b].net_pnl.is_nan());
    assert(gain_key()(ranked[0]) <= gain_key()(ranked[k]));
}

/// A ranking goes from the largest gain to the smallest, of results with enough
/// trades only, and of all of them.
pub proof fn rankings_descend(s: Seq<SweepResult>, min_trades: int, i: int, j: int)
    ensures
        0 <= i <= j < ranking(s, min_trades).len() ==> ranking(s, min_trades)[i].net_pnl.rank()
            >= ranking(s, min_trades)[j].net_pnl.rank(),
        0 <= i < ranking(s, min_trades).len() ==> s.contains(ranking(s, min_trades)[i]) && ranking(
            s,
            min_trades,
        )[i].trades >= min_trades,
        0 <= j < s.len() && s[j].trades >= min_trades ==> ranking(s, min_trades).contains(s[j]),
        ranking(s, min_trades).len() == with_trades(s, min_trades).len(),
{
    broadcast use vstd::seq_lib::group_filter_ensures;
    broadcast use vstd::seq_lib::group_to_multiset_ensures;

    let enough = |r: SweepResult| r.trades >= min_trades;
    let kept = with_trades(s, min_trades);
    let ranked = ranking(s, min_trades);
    ordering_sorts(kept, gain_key());
    if 0 <= i <= j < ranked.len() {
        assert(gain_key()(ranked[i]) <= gain_key()(ranked[j]));
    }
    if 0 <= i < ranked.len() {
        let x = ranked[i];
        assert(ranked.contains(x));
        assert(ranked.to_multiset().count(x) > 0);
        assert(kept.to_multiset().count(x) > 0);
        assert(kept.contains(x));
        kept_was_there(s, enough, x);
    }
    if 0 <= j < s.len() && s[j].trades >= min_trades {
        assert(enough(s[j]));
        assert(kept.contains(s[j]));
        assert(kept.to_multiset().count(s[j]) > 0);
        assert(ranked.to_multiset().count(s[j]) > 0);
    }
}

/// Results of one gain stay in the order that they came in.
pub proof fn equal_gains_keep_their_order(s: Seq<SweepResult>, min_trades: int, rank: int)
    ensures
        ranking(s, min_trades).filter(|r: SweepResult| r.net_pnl.rank() == rank) == with_trades(
            s,
            min_trades,
        ).filter(|r: SweepResult| r.net_pnl.rank() == rank),
{
    ordering_is_stable(with_trades(s, min_trades), gain_key(), -rank);
    assert((|r: SweepResult| r.net_pnl.rank() == rank) =~= (|r: SweepResult|
        gain_key()(r) == -rank));
}

} // verus!
