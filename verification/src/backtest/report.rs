//! What a replay comes to: counts of trades, wins and markets.

use std::collections::HashMap;

use vstd::prelude::*;

use crate::backtest::data::{
    has_minute_before, is_index, price_at, price_then, Candle, MarketRecord,
};
use crate::backtest::simulate::{AccuracyRecord, SimTrade, TradeOutcome};
use crate::backtest::sweep::SweepResult;
use crate::figure::{fig, Figure};

verus! {

/// How many looks an accuracy has to rest on to be reported.
pub const MIN_LOOKS: usize = 20;

/// How many things of a sequence pass a test.
pub open spec fn count_if<T>(s: Seq<T>, pass: spec_fn(T) -> bool) -> int
    decreases s.len(),
{
    if s.len() == 0 {
        0
    } else {
        count_if(s.drop_last(), pass) + (if pass(s.last()) {
            1int
        } else {
            0
        })
    }
}

proof fn lemma_count_step<T>(s: Seq<T>, pass: spec_fn(T) -> bool, i: int)
    requires
        0 <= i < s.len(),
    ensures
        count_if(s.take(i + 1), pass) == count_if(s.take(i), pass) + (if pass(s[i]) {
            1int
        } else {
            0
        }),
        0 <= count_if(s.take(i), pass) <= i,
    decreases i,
{
    assert(s.take(i + 1).drop_last() =~= s.take(i));
    if i > 0 {
        lemma_count_step(s, pass, i - 1);
    }
}

/// How many trades there are, and how many of them won.
#[derive(Clone, Copy, Debug, PartialEq, Eq, Structural)]
pub struct Tally {
    pub trades: usize,
    pub wins: usize,
}

/// Trades that won.
pub open spec fn won() -> spec_fn(SimTrade) -> bool {
    |t: SimTrade| t.outcome == TradeOutcome::Win
}

/// Trades on this side.
pub open spec fn on_side(up: bool) -> spec_fn(SimTrade) -> bool {
    |t: SimTrade| t.side_up == up
}

/// Trades on this side that won.
pub open spec fn won_on_side(up: bool) -> spec_fn(SimTrade) -> bool {
    |t: SimTrade| t.side_up == up && t.outcome == TradeOutcome::Win
}

/// How many trades there are, and how many of them won.
pub fn tally(trades: &Vec<SimTrade>) -> (r: Tally)
    ensures
        r.trades == trades@.len(),
        r.wins == count_if(trades@, won()),
        r.wins <= r.trades,
{
    let mut wins: usize = 0;
    let mut i: usize = 0;
    assert(trades@.take(0) =~= Seq::empty());
    while i < trades.len()
        invariant
            i <= trades@.len(),
            wins <= i,
            wins == count_if(trades@.take(i as int), won()),
        decreases trades@.len() - i,
    {
        proof {
            lemma_count_step(trades@, won(), i as int);
        }
        if trades[i].outcome == TradeOutcome::Win {
            wins = wins + 1;
        }
        i = i + 1;
    }
    assert(trades@.take(i as int) =~= trades@);
    Tally { trades: i, wins }
}

/// How many trades there are on one side, and how many of them won.
pub fn tally_side(trades: &Vec<SimTrade>, up: bool) -> (r: Tally)
    ensures
        r.trades == count_if(trades@, on_side(up)),
        r.wins == count_if(trades@, won_on_side(up)),
{
    let mut count: usize = 0;
    let mut wins: usize = 0;
    let mut i: usize = 0;
    assert(trades@.take(0) =~= Seq::empty());
    while i < trades.len()
        invariant
            i <= trades@.len(),
            wins <= i,
            count <= i,
            count == count_if(trades@.take(i as int), on_side(up)),
            wins == count_if(trades@.take(i as int), won_on_side(up)),
        decreases trades@.len() - i,
    {
        proof {
            lemma_count_step(trades@, on_side(up), i as int);
            lemma_count_step(trades@, won_on_side(up), i as int);
        }
        if trades[i].side_up == up {
            count = count + 1;
            if trades[i].outcome == TradeOutcome::Win {
                wins = wins + 1;
            }
        }
        i = i + 1;
    }
    assert(trades@.take(i as int) =~= trades@);
    Tally { trades: count, wins }
}

/// Every trade is on one side, and a win on one side.
pub proof fn sides_add_up(trades: Seq<SimTrade>)
    ensures
        count_if(trades, on_side(true)) + count_if(trades, on_side(false)) == trades.len(),
        count_if(trades, won_on_side(true)) + count_if(trades, won_on_side(false)) == count_if(
            trades,
            won(),
        ),
    decreases trades.len(),
{
    if trades.len() > 0 {
        sides_add_up(trades.drop_last());
    }
}

/// How many markets have a price of their beginning, and in how many of those
/// "up" won.
#[derive(Clone, Copy, Debug, PartialEq, Eq, Structural)]
pub struct Coverage {
    pub markets: usize,
    pub up_won: usize,
}

/// Markets with a price of their beginning.
pub open spec fn priced(candles: Seq<Candle>) -> spec_fn(MarketRecord) -> bool {
    |m: MarketRecord| price_then(candles, m.start_ts as int) is Some
}

/// Markets with a price of their beginning in which "up" won.
pub open spec fn priced_up(candles: Seq<Candle>) -> spec_fn(MarketRecord) -> bool {
    |m: MarketRecord| price_then(candles, m.start_ts as int) is Some && m.up_won
}

/// How many markets have a price of their beginning, and in how many of those
/// "up" won.
pub fn coverage(markets: &Vec<MarketRecord>, candles: &Vec<Candle>, index: &HashMap<i64, usize>) -> (r:
    Coverage)
    requires
        is_index(candles@, index@),
        forall|i: int|
            0 <= i < markets@.len() ==> has_minute_before(
                (#[trigger] markets@[i]).start_ts as int,
            ),
    ensures
        r.markets == count_if(markets@, priced(candles@)),
        r.up_won == count_if(markets@, priced_up(candles@)),
        r.up_won <= r.markets <= markets@.len(),
{
    let mut n: usize = 0;
    let mut up: usize = 0;
    let mut i: usize = 0;
    assert(markets@.take(0) =~= Seq::empty());
    while i < markets.len()
        invariant
            i <= markets@.len(),
            is_index(candles@, index@),
            forall|k: int|
                0 <= k < markets@.len() ==> has_minute_before(
                    (#[trigger] markets@[k]).start_ts as int,
                ),
            up <= n <= i,
            n == count_if(markets@.take(i as int), priced(candles@)),
            up == count_if(markets@.take(i as int), priced_up(candles@)),
        decreases markets@.len() - i,
    {
        proof {
            lemma_count_step(markets@, priced(candles@), i as int);
            lemma_count_step(markets@, priced_up(candles@), i as int);
        }
        if price_at(candles, index, markets[i].start_ts).is_some() {
            n = n + 1;
            if markets[i].up_won {
                up = up + 1;
            }
        }
        i = i + 1;
    }
    assert(markets@.take(i as int) =~= markets@);
    Coverage { markets: n, up_won: up }
}

/// Looks late enough at which the model was sure enough.
pub open spec fn counts(min_elapsed: int, min_confidence: Figure) -> spec_fn(AccuracyRecord) -> bool {
    |r: AccuracyRecord| r.elapsed_secs >= min_elapsed && min_confidence.at_most(r.model_prob)
}

/// Those of them at which it was right.
pub open spec fn counts_right(min_elapsed: int, min_confidence: Figure) -> spec_fn(
    AccuracyRecord,
) -> bool {
    |r: AccuracyRecord|
        r.elapsed_secs >= min_elapsed && min_confidence.at_most(r.model_prob) && r.correct
}

/// How often a model was sure enough, and how often it was right then.
#[derive(Clone, Copy, Debug, PartialEq, Eq, Structural)]
pub struct Accuracy {
    pub total: usize,
    pub correct: usize,
}

/// How often a model was sure enough late enough, and how often it was right
/// then; `None` where that is too seldom to be reported.
pub fn accuracy(records: &Vec<AccuracyRecord>, min_elapsed: i64, min_confidence: Figure) -> (r:
    Option<Accuracy>)
    ensures
        r is Some <==> count_if(records@, counts(min_elapsed as int, min_confidence)) >= MIN_LOOKS,
        r is Some ==> r->0.total == count_if(
            records@,
            counts(min_elapsed as int, min_confidence),
        ) && r->0.correct == count_if(records@, counts_right(min_elapsed as int, min_confidence))
            && r->0.correct <= r->0.total,
{
    let mut total: usize = 0;
    let mut correct: usize = 0;
    let mut i: usize = 0;
    assert(records@.take(0) =~= Seq::empty());
    while i < records.len()
        invariant
            i <= records@.len(),
            correct <= total <= i,
            total == count_if(
                records@.take(i as int),
                counts(min_elapsed as int, min_confidence),
            ),
            correct == count_if(
                records@.take(i as int),
                counts_right(min_elapsed as int, min_confidence),
            ),
        decreases records@.len() - i,
    {
        proof {
            lemma_count_step(records@, counts(min_elapsed as int, min_confidence), i as int);
            lemma_count_step(records@, counts_right(min_elapsed as int, min_confidence), i as int);
        }
        let record = records[i];
        if record.elapsed_secs >= min_elapsed && min_confidence.le(record.model_prob) {
            total = total + 1;
            if record.correct {
                correct = correct + 1;
            }
        }
        i = i + 1;
    }
    assert(records@.take(i as int) =~= records@);
    if total >= MIN_LOOKS {
        Some(Accuracy { total, correct })
    } else {
        None
    }
}

/// A gate that a model's accuracy is reported for: how late, and how sure.
#[derive(Clone, Copy, Debug, PartialEq, Eq, Structural)]
pub struct AccuracyGate {
    pub min_elapsed: i64,
    pub min_confidence: Figure,
}

/// How late the gates are, in seconds.
pub open spec fn gate_times() -> Seq<i64> {
    seq![60i64, 120i64, 180i64, 240i64]
}

/// How sure the gates are: 0.90, 0.95, 0.97, 0.99.
pub open spec fn gate_confidences() -> Seq<u64> {
    seq![
        0x3FEC_CCCC_CCCC_CCCDu64,
        0x3FEE_6666_6666_6666u64,
        0x3FEF_0A3D_70A3_D70Au64,
        0x3FEF_AE14_7AE1_47AEu64,
    ]
}

/// The gates that a model's accuracy is reported for: every time with every
/// confidence, the confidence varying fastest.
pub fn accuracy_gates() -> (r: Vec<AccuracyGate>)
    ensures
        r@.len() == 16,
        forall|i: int|
            0 <= i < 16 ==> #[trigger] r@[i] == (AccuracyGate {
                min_elapsed: gate_times()[i / 4],
                min_confidence: fig(gate_confidences()[i % 4]),
            }),
{
    let times: Vec<i64> = vec![60, 120, 180, 240];
    let confidences: Vec<u64> =
        vec![
            0x3FEC_CCCC_CCCC_CCCD,
            0x3FEE_6666_6666_6666,
            0x3FEF_0A3D_70A3_D70A,
            0x3FEF_AE14_7AE1_47AE,
        ];
    assert(times@ =~= gate_times());
    assert(confidences@ =~= gate_confidences());
    let mut gates: Vec<AccuracyGate> = Vec::new();
    let mut i: usize = 0;
    while i < 16
        invariant
            i <= 16,
            times@ == gate_times(),
            confidences@ == gate_confidences(),
            gates@.len() == i,
            forall|k: int|
                0 <= k < i ==> #[trigger] gates@[k] == (AccuracyGate {
                    min_elapsed: gate_times()[k / 4],
                    min_confidence: fig(gate_confidences()[k % 4]),
                }),
        decreases 16 - i,
    {
        gates.push(
            AccuracyGate {
                min_elapsed: times[i / 4],
                min_confidence: Figure::from_bits(confidences[i % 4]),
            },
        );
        i = i + 1;
    }
    gates
}

/// The trades that were entered within one minute of a market: how many, and
/// how many of them won.
#[derive(Clone, Copy, Debug, PartialEq, Eq, Structural)]
pub struct Bucket {
    pub start: i64,
    pub total: usize,
    pub wins: usize,
}

/// The minute that a trade was entered in, in seconds.
pub open spec fn bucket_of(elapsed: int) -> int {
    elapsed / 60 * 60
}

/// Trades that were entered in this minute.
pub open spec fn entered_in(start: int) -> spec_fn(SimTrade) -> bool {
    |t: SimTrade| bucket_of(t.entry_elapsed as int) == start
}

/// Trades that were entered in this minute and won.
pub open spec fn won_in(start: int) -> spec_fn(SimTrade) -> bool {
    |t: SimTrade|
        bucket_of(t.entry_elapsed as int) == start && t.outcome == TradeOutcome::Win
}

/// The trades of some buckets.
pub open spec fn totals(s: Seq<Bucket>) -> int
    decreases s.len(),
{
    if s.len() == 0 {
        0
    } else {
        totals(s.drop_last()) + s.last().total
    }
}

/// The buckets count some trades: one bucket for each minute that a trade was
/// entered in, from early to late.
pub open spec fn is_timing(s: Seq<Bucket>, trades: Seq<SimTrade>) -> bool {
    &&& forall|i: int, j: int|
        0 <= i < j < s.len() ==> (#[trigger] s[i]).start < (#[trigger] s[j]).start
    &&& forall|i: int|
        0 <= i < s.len() ==> {
            &&& (#[trigger] s[i]).total == count_if(trades, entered_in(s[i].start as int))
            &&& s[i].wins == count_if(trades, won_in(s[i].start as int))
            &&& s[i].total > 0
        }
    &&& forall|k: int|
        0 <= k < trades.len() ==> exists|i: int|
            0 <= i < s.len() && (#[trigger] s[i]).start == bucket_of(
                (#[trigger] trades[k]).entry_elapsed as int,
            )
}

proof fn lemma_totals_update(s: Seq<Bucket>, i: int, b: Bucket)
    requires
        0 <= i < s.len(),
    ensures
        totals(s.update(i, b)) == totals(s) - s[i].total + b.total,
    decreases s.len(),
{
    if i == s.len() - 1 {
        assert(s.update(i, b).drop_last() =~= s.drop_last());
    } else {
        assert(s.update(i, b).drop_last() =~= s.drop_last().update(i, b));
        lemma_totals_update(s.drop_last(), i, b);
    }
}

proof fn lemma_totals_insert(s: Seq<Bucket>, i: int, b: Bucket)
    requires
        0 <= i <= s.len(),
    ensures
        totals(s.insert(i, b)) == totals(s) + b.total,
    decreases s.len(),
{
    if i == s.len() {
        assert(s.insert(i, b).drop_last() =~= s);
    } else {
        assert(s.insert(i, b).drop_last() =~= s.drop_last().insert(i, b));
        assert(s.insert(i, b).last() == s.last());
        lemma_totals_insert(s.drop_last(), i, b);
    }
}

proof fn lemma_count_zero(trades: Seq<SimTrade>, start: int)
    requires
        forall|k: int|
            0 <= k < trades.len() ==> bucket_of((#[trigger] trades[k]).entry_elapsed as int)
                != start,
    ensures
        count_if(trades, entered_in(start)) == 0,
        count_if(trades, won_in(start)) == 0,
    decreases trades.len(),
{
    if trades.len() > 0 {
        let rest = trades.drop_last();
        assert forall|k: int| 0 <= k < rest.len() implies bucket_of(
            (#[trigger] rest[k]).entry_elapsed as int,
        ) != start by {
            assert(rest[k] == trades[k]);
        }
        lemma_count_zero(rest, start);
        assert(trades.last() == trades[trades.len() - 1]);
    }
}

/// The trades by the minute that they were entered in, from early to late.
pub fn timing(trades: &Vec<SimTrade>) -> (r: Vec<Bucket>)
    requires
        forall|k: int| 0 <= k < trades@.len() ==> (#[trigger] trades@[k]).entry_elapsed >= 0,
    ensures
        is_timing(r@, trades@),
        totals(r@) == trades@.len(),
{
    let mut buckets: Vec<Bucket> = Vec::new();
    let mut n: usize = 0;
    assert(trades@.take(0) =~= Seq::empty());
    while n < trades.len()
        invariant
            n <= trades@.len(),
            forall|k: int| 0 <= k < trades@.len() ==> (#[trigger] trades@[k]).entry_elapsed >= 0,
            is_timing(buckets@, trades@.take(n as int)),
            totals(buckets@) == n,
            buckets@.len() <= n,
        decreases trades@.len() - n,
    {
        let elapsed: i64 = trades[n].entry_elapsed;
        let start: i64 = elapsed / 60 * 60;
        let win: bool = trades[n].outcome == TradeOutcome::Win;
        let ghost before = buckets@;
        let ghost seen = trades@.take(n as int);
        let ghost next = trades@.take(n + 1);
        let ghost t = trades@[n as int];
        assert(next =~= seen.push(t));
        assert(next.drop_last() =~= seen);
        assert(start == bucket_of(t.entry_elapsed as int));
        let mut pos: usize = 0;
        while pos < buckets.len() && buckets[pos].start < start
            invariant
                pos <= buckets@.len(),
                buckets@ == before,
                forall|k: int| 0 <= k < pos ==> (#[trigger] buckets@[k]).start < start,
            decreases buckets@.len() - pos,
        {
            pos = pos + 1;
        }
        if pos < buckets.len() && buckets[pos].start == start {
            let b = buckets[pos];
            proof {
                lemma_count_bound(seen, entered_in(start as int));
                lemma_count_bound(seen, won_in(start as int));
            }
            let updated = Bucket {
                start,
                total: b.total + 1,
                wins: if win {
                    b.wins + 1
                } else {
                    b.wins
                },
            };
            buckets.set(pos, updated);
            proof {
                lemma_totals_update(before, pos as int, updated);
                assert(buckets@ =~= before.update(pos as int, updated));
                lemma_timing_step(before, buckets@, seen, next, t, pos as int, true);
            }
        } else {
            let added = Bucket {
                start,
                total: 1,
                wins: if win {
                    1
                } else {
                    0
                },
            };
            proof {
                assert forall|k: int| pos <= k < before.len() implies (#[trigger] before[k]).start
                    > start by {
                    if k > pos {
                        assert(before[pos as int].start < before[k].start);
                    }
                }
                assert forall|k: int| 0 <= k < seen.len() implies bucket_of(
                    (#[trigger] seen[k]).entry_elapsed as int,
                ) != start by {
                    let i = choose|i: int|
                        0 <= i < before.len() && (#[trigger] before[i]).start == bucket_of(
                            seen[k].entry_elapsed as int,
                        );
                    assert(before[i].start != start);
                }
                lemma_count_zero(seen, start as int);
                lemma_totals_insert(before, pos as int, added);
            }
            buckets.insert(pos, added);
            proof {
                lemma_timing_step(before, buckets@, seen, next, t, pos as int, false);
            }
        }
        n = n + 1;
    }
    assert(trades@.take(n as int) =~= trades@);
    buckets
}

proof fn lemma_count_bound(s: Seq<SimTrade>, pass: spec_fn(SimTrade) -> bool)
    ensures
        0 <= count_if(s, pass) <= s.len(),
    decreases s.len(),
{
    if s.len() > 0 {
        lemma_count_bound(s.drop_last(), pass);
    }
}

proof fn lemma_timing_step(
    before: Seq<Bucket>,
    after: Seq<Bucket>,
    seen: Seq<SimTrade>,
    next: Seq<SimTrade>,
    t: SimTrade,
    pos: int,
    known: bool,
)
    requires
        is_timing(before, seen),
        next == seen.push(t),
        next.drop_last() == seen,
        0 <= pos <= before.len(),
        forall|k: int|
            0 <= k < pos ==> (#[trigger] before[k]).start < bucket_of(t.entry_elapsed as int),
        known ==> pos < before.len() && before[pos].start == bucket_of(t.entry_elapsed as int)
            && after == before.update(pos, after[pos]) && after[pos].start == before[pos].start
            && after[pos].total == before[pos].total + 1 && after[pos].wins == before[pos].wins + (
        if t.outcome == TradeOutcome::Win {
            1int
        } else {
            0
        }),
        !known ==> after == before.insert(pos, after[pos]) && after[pos].start == bucket_of(
            t.entry_elapsed as int,
        ) && after[pos].total == 1 && after[pos].wins == (if t.outcome == TradeOutcome::Win {
            1int
        } else {
            0
        }) && count_if(seen, entered_in(bucket_of(t.entry_elapsed as int))) == 0 && count_if(
            seen,
            won_in(bucket_of(t.entry_elapsed as int)),
        ) == 0 && (forall|k: int|
            pos <= k < before.len() ==> (#[trigger] before[k]).start > bucket_of(
                t.entry_elapsed as int,
            )),
    ensures
        is_timing(after, next),
{
    let at = bucket_of(t.entry_elapsed as int);
    let old_of = |i: int| if known || i < pos { i } else { i - 1 };
    assert forall|i: int, j: int| 0 <= i < j < after.len() implies (#[trigger] after[i]).start < (
    #[trigger] after[j]).start by {
        if known {
            assert(before[i].start < before[j].start);
        } else if i == pos {
            assert(after[j] == before[j - 1]);
        } else if j == pos {
            assert(after[i] == before[i]);
        } else {
            assert(after[i] == before[old_of(i)] && after[j] == before[old_of(j)]);
            assert(before[old_of(i)].start < before[old_of(j)].start);
        }
    }
    assert forall|i: int| 0 <= i < after.len() implies {
        &&& (#[trigger] after[i]).total == count_if(next, entered_in(after[i].start as int))
        &&& after[i].wins == count_if(next, won_in(after[i].start as int))
        &&& after[i].total > 0
    } by {
        if i != pos {
            assert(after[i] == before[old_of(i)]);
            assert(after[i].start != at) by {
                if known {
                    if i < pos {
                        assert(before[i].start < before[pos].start);
                    } else {
                        assert(before[pos].start < before[i].start);
                    }
                }
            }
        }
    }
    assert forall|k: int| 0 <= k < next.len() implies exists|i: int|
        0 <= i < after.len() && (#[trigger] after[i]).start == bucket_of(
            (#[trigger] next[k]).entry_elapsed as int,
        ) by {
        if k < seen.len() {
            assert(next[k] == seen[k]);
            let i = choose|i: int|
                0 <= i < before.len() && (#[trigger] before[i]).start == bucket_of(
                    seen[k].entry_elapsed as int,
                );
            if known || i < pos {
                assert(after[i].start == before[i].start);
            } else {
                assert(after[i + 1].start == before[i].start);
            }
        } else {
            assert(after[pos].start == bucket_of(next[k].entry_elapsed as int));
        }
    }
}

/// A line of the comparison of strategies: a label, and what is said of it.
#[derive(Clone, Copy, Debug)]
pub struct ComparisonRow {
    pub label: &'static str,
    pub result: SweepResult,
}

/// A line as plain values.
pub open spec fn row(label: Seq<char>, result: SweepResult) -> (Seq<char>, SweepResult) {
    (label, result)
}

pub open spec fn rows_view(v: Seq<ComparisonRow>) -> Seq<(Seq<char>, SweepResult)> {
    Seq::new(v.len(), |i: int| row(v[i].label@, v[i].result))
}

/// A line for a result that may be missing.
pub open spec fn row_if(label: Seq<char>, result: Option<SweepResult>) -> Seq<
    (Seq<char>, SweepResult),
> {
    match result {
        Some(result) => seq![row(label, result)],
        None => Seq::empty(),
    }
}

/// The best frontloading result with its entry price for the average price.
pub open spec fn at_entry_price(result: Option<SweepResult>, entry_price: Figure) -> Option<
    SweepResult,
> {
    match result {
        Some(r) => Some(SweepResult { avg_buy_price: entry_price, ..r }),
        None => None,
    }
}

/// The comparison of strategies: the best result of each that was ranked, and
/// what the sniper and the Bayesian strategy do by default.
pub fn comparison_rows(
    sniper_best: Option<SweepResult>,
    sniper_current: SweepResult,
    bayesian_best: Option<SweepResult>,
    bayesian_default: SweepResult,
    frontload_best: Option<SweepResult>,
    frontload_entry_price: Figure,
) -> (r: Vec<ComparisonRow>)
    ensures
        rows_view(r@) == row_if("Sniper (best)"@, sniper_best) + seq![
            row("Sniper (current)"@, sniper_current),
        ] + row_if("Bayesian (best)"@, bayesian_best) + seq![
            row("Bayesian (default)"@, bayesian_default),
        ] + row_if("Frontload (best)"@, at_entry_price(frontload_best, frontload_entry_price)),
{
    let mut rows: Vec<ComparisonRow> = Vec::new();
    if let Some(result) = sniper_best {
        rows.push(ComparisonRow { label: "Sniper (best)", result });
    }
    rows.push(ComparisonRow { label: "Sniper (current)", result: sniper_current });
    if let Some(result) = bayesian_best {
        rows.push(ComparisonRow { label: "Bayesian (best)", result });
    }
    rows.push(ComparisonRow { label: "Bayesian (default)", result: bayesian_default });
    if let Some(best) = frontload_best {
        let result = SweepResult { avg_buy_price: frontload_entry_price, ..best };
        rows.push(ComparisonRow { label: "Frontload (best)", result });
    }
    assert(rows_view(rows@) =~= row_if("Sniper (best)"@, sniper_best) + seq![
        row("Sniper (current)"@, sniper_current),
    ] + row_if("Bayesian (best)"@, bayesian_best) + seq![
        row("Bayesian (default)"@, bayesian_default),
    ] + row_if("Frontload (best)"@, at_entry_price(frontload_best, frontload_entry_price)));
    rows
}

/// A further trade counts once in all, once on its own side and once in its own
/// minute, and as a win in each exactly where it won.
pub proof fn trades_are_counted_once(trades: Seq<SimTrade>, t: SimTrade, up: bool, start: int)
    ensures
        ({
            let all = trades.push(t);
            let win = if t.outcome is Win {
                1int
            } else {
                0
            };
            let mine = if (t.side_up && up) || (!t.side_up && !up) {
                1int
            } else {
                0
            };
            let here = if start % 60 == 0 && start <= t.entry_elapsed < start + 60 {
                1int
            } else {
                0
            };
            &&& count_if(all, won()) == count_if(trades, won()) + win
            &&& count_if(all, on_side(up)) == count_if(trades, on_side(up)) + mine
            &&& count_if(all, won_on_side(up)) == count_if(trades, won_on_side(up)) + mine * win
            &&& count_if(all, entered_in(start)) == count_if(trades, entered_in(start)) + here
            &&& count_if(all, won_in(start)) == count_if(trades, won_in(start)) + here * win
        }),
        count_if(Seq::<SimTrade>::empty(), won()) == 0,
        count_if(Seq::<SimTrade>::empty(), on_side(up)) == 0,
        count_if(Seq::<SimTrade>::empty(), won_on_side(up)) == 0,
        count_if(Seq::<SimTrade>::empty(), entered_in(start)) == 0,
        count_if(Seq::<SimTrade>::empty(), won_in(start)) == 0,
{
    assert(trades.push(t).drop_last() =~= trades);
    assert(bucket_of(t.entry_elapsed as int) == start <==> start % 60 == 0 && start
        <= t.entry_elapsed < start + 60);
}

/// A further market counts exactly where there is a price of its beginning, and
/// for "up" where "up" won besides.
pub proof fn priced_markets_are_counted_once(
    markets: Seq<MarketRecord>,
    m: MarketRecord,
    candles: Seq<Candle>,
)
    ensures
        ({
            let all = markets.push(m);
            let known = price_then(candles, m.start_ts as int) is Some;
            &&& known ==> count_if(all, priced(candles)) == count_if(markets, priced(candles)) + 1
            &&& !known ==> count_if(all, priced(candles)) == count_if(markets, priced(candles))
            &&& known && m.up_won ==> count_if(all, priced_up(candles)) == count_if(
                markets,
                priced_up(candles),
            ) + 1
            &&& !known || !m.up_won ==> count_if(all, priced_up(candles)) == count_if(
                markets,
                priced_up(candles),
            )
        }),
        count_if(Seq::<MarketRecord>::empty(), priced(candles)) == 0,
        count_if(Seq::<MarketRecord>::empty(), priced_up(candles)) == 0,
{
    assert(markets.push(m).drop_last() =~= markets);
}

/// A further look counts exactly where it is no earlier than asked for and at
/// least as sure, and as right where it was right besides.
pub proof fn sure_looks_are_counted_once(
    records: Seq<AccuracyRecord>,
    r: AccuracyRecord,
    min_elapsed: int,
    min_confidence: Figure,
)
    ensures
        ({
            let all = records.push(r);
            let sure = r.elapsed_secs >= min_elapsed && min_confidence.at_most(r.model_prob);
            let total = counts(min_elapsed, min_confidence);
            let right = counts_right(min_elapsed, min_confidence);
            &&& sure ==> count_if(all, total) == count_if(records, total) + 1
            &&& !sure ==> count_if(all, total) == count_if(records, total)
            &&& sure && r.correct ==> count_if(all, right) == count_if(records, right) + 1
            &&& !sure || !r.correct ==> count_if(all, right) == count_if(records, right)
        }),
        count_if(Seq::<AccuracyRecord>::empty(), counts(min_elapsed, min_confidence)) == 0,
        count_if(Seq::<AccuracyRecord>::empty(), counts_right(min_elapsed, min_confidence)) == 0,
{
    assert(records.push(r).drop_last() =~= records);
}

/// The best frontloading result is shown as it is but for its average price, for
/// which the entry price stands.
pub proof fn the_entry_price_is_the_average(result: SweepResult, entry_price: Figure)
    ensures
        at_entry_price(None, entry_price) is None,
        at_entry_price(Some(result), entry_price) matches Some(shown) && {
            &&& shown.avg_buy_price == entry_price
            &&& shown.config == result.config
            &&& shown.trades == result.trades
            &&& shown.wins == result.wins
            &&& shown.win_rate == result.win_rate
            &&& shown.net_pnl == result.net_pnl
            &&& shown.pnl_per_trade == result.pnl_per_trade
        },
{
}

} // verus!
