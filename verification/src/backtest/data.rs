//! Markets and prices of the past.

use std::collections::HashMap;

use vstd::prelude::*;
use vstd::std_specs::hash::*;

use crate::cli::MarketWindow;
use crate::clock::{slug_of, slug_reads_back, slug_ts, ts_of_slug, window_slug};
use crate::figure::{fig, Figure};
use crate::market::{
    find_up, markets_view, or_empty, price_of, text_or_empty, Event, EventView, MarketView,
    UpOutOfRange, WON_PRICE,
};
use crate::order::{ascending, fits_at, ordered, ordering_sorts, placed_where_it_fits};
use crate::text::{same, signed_numeral, signed_text};

verus! {

/// Seconds in a day.
pub const DAY_SECS: u64 = 86_400;

/// How many slugs are asked for at once.
pub const BATCH: usize = 50;

/// Seconds of prices before the first market.
pub const LEAD_SECS: i64 = 900;

/// Milliseconds between two candles.
pub const CANDLE_MS: i64 = 60_000;

/// The first window of the last `days` days.
pub open spec fn first_window(now: int, days: int, length: int) -> int {
    let start = now - days * DAY_SECS;
    start - start % length
}

/// When the windows of the last days began, up to now.
pub fn window_timestamps(now: u64, days: u64, market: MarketWindow) -> (r: Vec<u64>)
    requires
        now + market.length() <= u64::MAX,
        days * DAY_SECS <= now,
    ensures
        forall|i: int|
            0 <= i < r@.len() ==> #[trigger] r@[i] == first_window(
                now as int,
                days as int,
                market.length(),
            ) + i * market.length(),
        forall|i: int| 0 <= i < r@.len() ==> #[trigger] r@[i] < now,
        first_window(now as int, days as int, market.length()) + r@.len() * market.length() >= now,
{
    let length: u64 = market.secs() as u64;
    let start: u64 = now - days * DAY_SECS;
    assert(0 <= start % length <= start) by (nonlinear_arith)
        requires
            length > 0,
    ;
    let first: u64 = start - start % length;
    let mut ts: u64 = first;
    let mut all: Vec<u64> = Vec::new();
    while ts < now
        invariant
            now + length <= u64::MAX,
            length == market.length(),
            300 <= length <= 900,
            first <= ts < now + length || ts == first,
            first <= now,
            first == first_window(now as int, days as int, market.length()),
            ts == first + all@.len() * length,
            forall|i: int| 0 <= i < all@.len() ==> #[trigger] all@[i] == first + i * length,
            forall|i: int| 0 <= i < all@.len() ==> #[trigger] all@[i] < now,
        decreases now + length - ts,
    {
        all.push(ts);
        ts = ts + length;
        assert((all@.len() - 1) * length + length == all@.len() * length) by (nonlinear_arith);
    }
    all
}

/// The slugs that are asked for, in batches: the windows in order, fifty at a
/// time.
pub fn slug_batches(market: MarketWindow, timestamps: &Vec<u64>) -> (r: Vec<Vec<String>>)
    ensures
        (r@.len() - 1) * BATCH < timestamps@.len() <= r@.len() * BATCH || (timestamps@.len() == 0
            && r@.len() == 0),
        forall|k: int|
            0 <= k < r@.len() ==> (#[trigger] r@[k])@.len() == (if timestamps@.len() - k * BATCH
                < BATCH {
                timestamps@.len() - k * BATCH
            } else {
                BATCH as int
            }),
        forall|k: int, j: int|
            0 <= k < r@.len() && 0 <= j < r@[k]@.len() ==> (#[trigger] r@[k]@[j])@ == slug_of(
                market.prefix(),
                timestamps@[k * BATCH + j] as nat,
            ),
{
    let n: usize = timestamps.len();
    let prefix = market.slug_prefix();
    let mut batches: Vec<Vec<String>> = Vec::new();
    let mut done: usize = 0;
    while done < n
        invariant
            n == timestamps@.len(),
            done <= n,
            prefix@ == market.prefix(),
            done == batches@.len() * BATCH || (done == n && (batches@.len() - 1) * BATCH < n
                <= batches@.len() * BATCH),
            forall|k: int|
                0 <= k < batches@.len() ==> (#[trigger] batches@[k])@.len() == (if n - k * BATCH
                    < BATCH {
                    n - k * BATCH
                } else {
                    BATCH as int
                }),
            forall|k: int, j: int|
                0 <= k < batches@.len() && 0 <= j < batches@[k]@.len() ==> (
                #[trigger] batches@[k]@[j])@ == slug_of(
                    prefix@,
                    timestamps@[k * BATCH + j] as nat,
                ),
        decreases n - done,
    {
        let ghost k = batches@.len() as int;
        let size: usize = if n - done < BATCH {
            n - done
        } else {
            BATCH
        };
        let mut batch: Vec<String> = Vec::new();
        let mut j: usize = 0;
        while j < size
            invariant
                n == timestamps@.len(),
                size <= n - done,
                done <= n,
                done == k * BATCH,
                j <= size,
                batch@.len() == j,
                forall|i: int|
                    0 <= i < j ==> (#[trigger] batch@[i])@ == slug_of(
                        prefix@,
                        timestamps@[k * BATCH + i] as nat,
                    ),
            decreases size - j,
        {
            batch.push(window_slug(prefix, timestamps[done + j]));
            j = j + 1;
        }
        batches.push(batch);
        done = done + size;
    }
    batches
}

/// A market of the past: when it began and whether "up" won.
#[derive(Debug)]
pub struct MarketRecord {
    pub slug: String,
    pub start_ts: i64,
    pub up_won: bool,
}

/// What a record says.
#[verifier::ext_equal]
pub struct RecordView {
    pub slug: Seq<char>,
    pub start_ts: int,
    pub up_won: bool,
}

impl View for MarketRecord {
    type V = RecordView;

    open spec fn view(&self) -> RecordView {
        RecordView { slug: self.slug@, start_ts: self.start_ts as int, up_won: self.up_won }
    }
}

impl Clone for MarketRecord {
    fn clone(&self) -> (r: MarketRecord)
        ensures
            r == *self,
    {
        MarketRecord {
            slug: self.slug.clone(),
            start_ts: self.start_ts,
            up_won: self.up_won,
        }
    }
}

pub open spec fn records_view(v: Seq<MarketRecord>) -> Seq<RecordView> {
    Seq::new(v.len(), |i: int| v[i]@)
}

/// One of the first two outcomes has won: they have prices, and not both are
/// below the price of a winner.
pub open spec fn is_decided(m: MarketView) -> bool {
    &&& m.outcome_prices.len() >= 2
    &&& !(m.price_or_zero(0).below(fig(WON_PRICE)) && m.price_or_zero(1).below(fig(WON_PRICE)))
}

/// The records of some markets of an event, in order.
pub open spec fn records_of(slug: Seq<char>, ms: Seq<MarketView>) -> Seq<RecordView>
    decreases ms.len(),
{
    if ms.len() == 0 {
        Seq::empty()
    } else {
        let before = records_of(slug, ms.drop_last());
        if is_decided(ms.last()) {
            before.push(
                RecordView {
                    slug,
                    start_ts: ts_of_slug(slug),
                    up_won: ms.last().up_won() == Some(true),
                },
            )
        } else {
            before
        }
    }
}

/// The slug of an event says when its window began.
pub open spec fn is_dated(e: EventView) -> bool {
    ts_of_slug(or_empty(e.slug)) != 0
}

/// A decided market of the event has no price for its "up".
pub open spec fn is_broken(e: EventView) -> bool {
    is_dated(e) && exists|i: int|
        0 <= i < e.markets.len() && is_decided(#[trigger] e.markets[i]) && e.markets[i].up_index()
            >= e.markets[i].outcome_prices.len()
}

/// The records of an event: its decided markets, in order; none where its slug
/// names no window. An error where a decided market has no price for its "up".
pub fn event_records(event: &Event) -> (r: Result<Vec<MarketRecord>, UpOutOfRange>)
    ensures
        r is Err <==> is_broken(event@),
        r is Ok ==> records_view(r->Ok_0@) == (if is_dated(event@) {
            records_of(or_empty(event@.slug), event@.markets)
        } else {
            Seq::empty()
        }),
{
    let mut records: Vec<MarketRecord> = Vec::new();
    assert(records_view(records@) =~= Seq::empty());
    let slug = text_or_empty(&event.slug);
    let start_ts: i64 = slug_ts(slug.as_str());
    if start_ts == 0 {
        return Ok(records);
    }
    let ghost ms = event@.markets;
    assert(ms == markets_view(event.markets@));
    let mut i: usize = 0;
    assert(ms.take(0) =~= Seq::empty());
    while i < event.markets.len()
        invariant
            i <= event.markets@.len(),
            ms == markets_view(event.markets@),
            ms == event@.markets,
            slug@ == or_empty(event@.slug),
            start_ts == ts_of_slug(slug@),
            start_ts != 0,
            records_view(records@) == records_of(slug@, ms.take(i as int)),
            forall|k: int|
                0 <= k < i && is_decided(#[trigger] ms[k]) ==> ms[k].up_index()
                    < ms[k].outcome_prices.len(),
        decreases event.markets@.len() - i,
    {
        let m = &event.markets[i];
        assert(ms[i as int] == m@);
        assert(ms.take(i + 1).drop_last() =~= ms.take(i as int));
        assert(ms.take(i + 1).last() == m@);
        if m.outcome_prices.len() >= 2 {
            let won = Figure::from_bits(WON_PRICE);
            if !(price_of(m, 0).lt(won) && price_of(m, 1).lt(won)) {
                let up: usize = find_up(&m.outcomes);
                if up >= m.outcome_prices.len() {
                    return Err(UpOutOfRange);
                }
                let up_won: bool = won.lt(price_of(m, up));
                let ghost before = records_view(records@);
                let record = MarketRecord { slug: slug.clone(), start_ts, up_won };
                records.push(record);
                assert(records_view(records@) =~= before.push(record@));
            }
        }
        i = i + 1;
    }
    assert(ms.take(i as int) =~= ms);
    Ok(records)
}

/// What records are ordered by.
pub open spec fn start_key() -> spec_fn(MarketRecord) -> int {
    |r: MarketRecord| r.start_ts as int
}

/// The records without those that follow one with the same slug.
pub open spec fn deduped(s: Seq<MarketRecord>) -> Seq<MarketRecord>
    decreases s.len(),
{
    if s.len() == 0 {
        Seq::empty()
    } else {
        let before = deduped(s.drop_last());
        if before.len() > 0 && before.last().slug@ == s.last().slug@ {
            before
        } else {
            before.push(s.last())
        }
    }
}

fn sort_records(records: &Vec<MarketRecord>) -> (r: Vec<MarketRecord>)
    ensures
        r@ == ordered(records@, start_key()),
{
    let mut sorted: Vec<MarketRecord> = Vec::new();
    let mut i: usize = 0;
    assert(records@.take(0) =~= Seq::empty());
    while i < records.len()
        invariant
            i <= records@.len(),
            sorted@ == ordered(records@.take(i as int), start_key()),
        decreases records@.len() - i,
    {
        let record = records[i].clone();
        proof {
            ordering_sorts(records@.take(i as int), start_key());
        }
        let mut pos: usize = sorted.len();
        while pos > 0 && sorted[pos - 1].start_ts > record.start_ts
            invariant
                pos <= sorted@.len(),
                forall|k: int|
                    pos <= k < sorted@.len() ==> (#[trigger] sorted@[k]).start_ts > record.start_ts,
            decreases pos,
        {
            pos = pos - 1;
        }
        proof {
            assert forall|k: int| 0 <= k < pos implies start_key()(#[trigger] sorted@[k])
                <= start_key()(record) by {
                assert(start_key()(sorted@[k]) <= start_key()(sorted@[pos - 1]));
            }
            assert(fits_at(sorted@, start_key(), record, pos as int));
            placed_where_it_fits(sorted@, start_key(), record, pos as int);
        }
        sorted.insert(pos, record);
        assert(records@.take(i + 1).drop_last() =~= records@.take(i as int));
        assert(records@.take(i + 1).last() == record);
        i = i + 1;
    }
    assert(records@.take(i as int) =~= records@);
    sorted
}

fn dedup_records(records: &Vec<MarketRecord>) -> (r: Vec<MarketRecord>)
    ensures
        r@ == deduped(records@),
{
    let mut kept: Vec<MarketRecord> = Vec::new();
    let mut i: usize = 0;
    assert(records@.take(0) =~= Seq::empty());
    while i < records.len()
        invariant
            i <= records@.len(),
            kept@ == deduped(records@.take(i as int)),
        decreases records@.len() - i,
    {
        assert(records@.take(i + 1).drop_last() =~= records@.take(i as int));
        assert(records@.take(i + 1).last() == records@[i as int]);
        let n: usize = kept.len();
        let repeated: bool = n > 0 && same(kept[n - 1].slug.as_str(), records[i].slug.as_str());
        if !repeated {
            kept.push(records[i].clone());
        }
        i = i + 1;
    }
    assert(records@.take(i as int) =~= records@);
    kept
}

/// The records from early to late, those of one time as they came, without
/// those that follow one with the same slug.
pub fn tidy_records(records: &Vec<MarketRecord>) -> (r: Vec<MarketRecord>)
    ensures
        r@ == deduped(ordered(records@, start_key())),
{
    dedup_records(&sort_records(records))
}

proof fn lemma_deduped(s: Seq<MarketRecord>)
    requires
        ascending(s, start_key()),
    ensures
        ascending(deduped(s), start_key()),
        s.len() > 0 ==> deduped(s).len() > 0 && deduped(s).last().slug@ == s.last().slug@,
        forall|i: int|
            0 <= i < deduped(s).len() ==> (#[trigger] deduped(s)[i]).start_ts <= s.last().start_ts,
        forall|i: int|
            0 <= i < deduped(s).len() - 1 ==> (#[trigger] deduped(s)[i]).slug@ != deduped(s)[i
                + 1].slug@,
    decreases s.len(),
{
    if s.len() > 0 {
        let rest = s.drop_last();
        assert(ascending(rest, start_key())) by {
            assert forall|i: int, j: int| 0 <= i <= j < rest.len() implies start_key()(
                #[trigger] rest[i],
            ) <= start_key()(#[trigger] rest[j]) by {
                assert(rest[i] == s[i] && rest[j] == s[j]);
            }
        }
        lemma_deduped(rest);
        let before = deduped(rest);
        let after = deduped(s);
        assert forall|i: int| 0 <= i < after.len() implies (#[trigger] after[i]).start_ts
            <= s.last().start_ts by {
            if i < before.len() {
                assert(after[i] == before[i]);
                assert(before[i].start_ts <= rest.last().start_ts);
                assert(rest.last() == s[s.len() - 2]);
                assert(start_key()(s[s.len() - 2]) <= start_key()(s[s.len() - 1]));
            }
        }
        assert forall|i: int, j: int| 0 <= i <= j < after.len() implies start_key()(
            #[trigger] after[i],
        ) <= start_key()(#[trigger] after[j]) by {
            if j < before.len() {
                assert(after[i] == before[i] && after[j] == before[j]);
                assert(start_key()(before[i]) <= start_key()(before[j]));
            }
        }
        assert forall|i: int| 0 <= i < after.len() - 1 implies (#[trigger] after[i]).slug@
            != after[i + 1].slug@ by {
            assert(after[i] == before[i]);
            if i + 1 < before.len() {
                assert(after[i + 1] == before[i + 1]);
            }
        }
    }
}

/// Tidy records go from early to late, and no two neighbours share a slug.
pub proof fn tidy_records_are_in_order(records: Seq<MarketRecord>)
    ensures
        ascending(deduped(ordered(records, start_key())), start_key()),
        forall|i: int|
            0 <= i < deduped(ordered(records, start_key())).len() - 1 ==> (#[trigger] deduped(
                ordered(records, start_key()),
            )[i]).slug@ != deduped(ordered(records, start_key()))[i + 1].slug@,
{
    ordering_sorts(records, start_key());
    lemma_deduped(ordered(records, start_key()));
}

/// The records that are left were there.
proof fn lemma_deduped_were_there(s: Seq<MarketRecord>)
    ensures
        forall|i: int| 0 <= i < deduped(s).len() ==> s.contains(#[trigger] deduped(s)[i]),
    decreases s.len(),
{
    if s.len() > 0 {
        let rest = s.drop_last();
        lemma_deduped_were_there(rest);
        let after = deduped(s);
        assert forall|i: int| 0 <= i < after.len() implies s.contains(#[trigger] after[i]) by {
            if i < deduped(rest).len() {
                assert(after[i] == deduped(rest)[i]);
                let k = choose|k: int| 0 <= k < rest.len() && rest[k] == after[i];
                assert(s[k] == after[i]);
            } else {
                assert(s[s.len() - 1] == after[i]);
            }
        }
    }
}

/// The slug of a record names the window that the record is of.
pub open spec fn is_named(r: MarketRecord, prefix: Seq<char>) -> bool {
    0 <= r.start_ts && r.slug@ == slug_of(prefix, r.start_ts as nat)
}

/// Where the slug of each record names its window, no two tidy records share a
/// slug.
pub proof fn tidy_records_differ(records: Seq<MarketRecord>, prefix: Seq<char>, i: int, j: int)
    requires
        forall|k: int| 0 <= k < records.len() ==> is_named(#[trigger] records[k], prefix),
        0 <= i < j < deduped(ordered(records, start_key())).len(),
    ensures
        deduped(ordered(records, start_key()))[i].slug@ != deduped(
            ordered(records, start_key()),
        )[j].slug@,
{
    let sorted = ordered(records, start_key());
    let tidy = deduped(sorted);
    tidy_records_are_in_order(records);
    ordering_sorts(records, start_key());
    lemma_deduped_were_there(sorted);
    assert forall|k: int| 0 <= k < tidy.len() implies is_named(#[trigger] tidy[k], prefix) by {
        broadcast use vstd::seq_lib::group_to_multiset_ensures;

        let r = tidy[k];
        assert(sorted.contains(r));
        assert(sorted.to_multiset().count(r) > 0);
        assert(records.to_multiset().count(r) > 0);
        assert(records.contains(r));
        let m = choose|m: int| 0 <= m < records.len() && records[m] == r;
        assert(is_named(records[m], prefix));
    }
    if tidy[i].slug@ == tidy[j].slug@ {
        assert(is_named(tidy[i], prefix) && is_named(tidy[i + 1], prefix));
        assert(is_named(tidy[j], prefix));
        slug_reads_back(prefix, tidy[i].start_ts as nat);
        slug_reads_back(prefix, tidy[j].start_ts as nat);
        assert(start_key()(tidy[i]) <= start_key()(tidy[i + 1]) <= start_key()(tidy[j]));
        assert(tidy[i].start_ts == tidy[i + 1].start_ts);
    }
}

/// The earliest of some times; 0 where there is none.
pub open spec fn earliest(s: Seq<MarketRecord>) -> int
    decreases s.len(),
{
    if s.len() == 0 {
        0
    } else if s.len() == 1 || s.last().start_ts < earliest(s.drop_last()) {
        s.last().start_ts as int
    } else {
        earliest(s.drop_last())
    }
}

/// When the first of some markets began; 0 where there is none.
pub fn earliest_start(records: &Vec<MarketRecord>) -> (r: i64)
    ensures
        r == earliest(records@),
{
    let mut first: i64 = 0;
    let mut i: usize = 0;
    assert(records@.take(0) =~= Seq::empty());
    while i < records.len()
        invariant
            i <= records@.len(),
            first == earliest(records@.take(i as int)),
        decreases records@.len() - i,
    {
        assert(records@.take(i + 1).drop_last() =~= records@.take(i as int));
        assert(records@.take(i + 1).last() == records@[i as int]);
        if i == 0 || records[i].start_ts < first {
            first = records[i].start_ts;
        }
        i = i + 1;
    }
    assert(records@.take(i as int) =~= records@);
    first
}

/// The price of bitcoin over one minute.
#[derive(Clone, Copy, Debug, PartialEq, Eq, Structural)]
pub struct Candle {
    pub open_time_ms: i64,
    pub open: Figure,
    pub close: Figure,
}

/// Milliseconds in whole seconds, the rest dropped.
pub open spec fn secs_of(ms: int) -> int {
    if ms < 0 {
        -((-ms) / 1000)
    } else {
        ms / 1000
    }
}

/// Where the candles begin, in milliseconds: some time before the first market.
/// `None` where that is out of range.
pub fn first_cursor(start_ts: i64) -> (r: Option<i64>)
    ensures
        r == (if i64::MIN <= (start_ts - LEAD_SECS) * 1000 <= i64::MAX {
            Some(((start_ts - LEAD_SECS) * 1000) as i64)
        } else {
            None
        }),
{
    let ms: i128 = (start_ts as i128 - LEAD_SECS as i128) * 1000;
    if i64::MIN as i128 <= ms && ms <= i64::MAX as i128 {
        Some(ms as i64)
    } else {
        None
    }
}

/// Where to ask for the next candles: a minute after the last one that came;
/// `None` where the last answer was empty, or where now has been reached.
pub fn next_cursor(answer: usize, last_open_ms: i64, now_ms: i64) -> (r: Option<i64>)
    requires
        last_open_ms <= i64::MAX - CANDLE_MS,
    ensures
        r == (if answer == 0 || last_open_ms + CANDLE_MS >= now_ms {
            None
        } else {
            Some((last_open_ms + CANDLE_MS) as i64)
        }),
{
    if answer == 0 || last_open_ms + CANDLE_MS >= now_ms {
        None
    } else {
        Some(last_open_ms + CANDLE_MS)
    }
}

/// The address that candles from `cursor` on are asked from.
pub fn kline_url(cursor: i64) -> (r: String)
    ensures
        r@
            == "https://api.binance.com/api/v3/klines?symbol=BTCUSDT&interval=1m&startTime="@
            + signed_numeral(cursor as int) + "&limit=1000"@,
{
    let mut url =
        "https://api.binance.com/api/v3/klines?symbol=BTCUSDT&interval=1m&startTime=".to_owned();
    url.append(signed_text(cursor).as_str());
    url.append("&limit=1000");
    url
}

/// The last candle among the first `n` that begins at this second, or -1.
pub open spec fn candle_at(candles: Seq<Candle>, secs: int, n: int) -> int
    decreases n,
{
    if n <= 0 {
        -1
    } else if secs_of(candles[n - 1].open_time_ms as int) == secs {
        n - 1
    } else {
        candle_at(candles, secs, n - 1)
    }
}

/// The index finds the last candle of every second.
pub open spec fn is_index(candles: Seq<Candle>, index: Map<i64, usize>) -> bool {
    forall|secs: i64|
        {
            &&& #[trigger] index.contains_key(secs) <==> candle_at(
                candles,
                secs as int,
                candles.len() as int,
            ) >= 0
            &&& index.contains_key(secs) ==> index[secs] == candle_at(
                candles,
                secs as int,
                candles.len() as int,
            )
        }
}

proof fn lemma_candle_at(candles: Seq<Candle>, secs: int, n: int)
    requires
        0 <= n <= candles.len(),
    ensures
        -1 <= candle_at(candles, secs, n) < n,
    decreases n,
{
    if n > 0 {
        lemma_candle_at(candles, secs, n - 1);
    }
}

/// The index that finds the last candle of every second.
pub fn build_candle_index(candles: &Vec<Candle>) -> (r: HashMap<i64, usize>)
    ensures
        is_index(candles@, r@),
{
    broadcast use group_hash_axioms;

    let mut index: HashMap<i64, usize> = HashMap::new();
    let mut i: usize = 0;
    while i < candles.len()
        invariant
            i <= candles@.len(),
            forall|secs: i64|
                {
                    &&& #[trigger] index@.contains_key(secs) <==> candle_at(
                        candles@,
                        secs as int,
                        i as int,
                    ) >= 0
                    &&& index@.contains_key(secs) ==> index@[secs] == candle_at(
                        candles@,
                        secs as int,
                        i as int,
                    )
                },
        decreases candles@.len() - i,
    {
        let ms: i64 = candles[i].open_time_ms;
        let secs: i64 = ms / 1000;
        assert(secs == secs_of(ms as int));
        index.insert(secs, i);
        i = i + 1;
    }
    index
}

/// The minute that a second lies in, towards 0.
pub open spec fn minute_of(ts: int) -> int {
    if ts < 0 {
        -((-ts) / 60) * 60
    } else {
        ts / 60 * 60
    }
}

/// The minute before that of a time can be counted in 64 bits.
pub open spec fn has_minute_before(ts: int) -> bool {
    minute_of(ts) - 60 >= i64::MIN
}

/// The price of bitcoin at a time: the close of the candle of that minute, else
/// of the minute before.
pub open spec fn price_then(candles: Seq<Candle>, ts: int) -> Option<Figure> {
    let n = candles.len() as int;
    let here = candle_at(candles, minute_of(ts), n);
    let before = candle_at(candles, minute_of(ts) - 60, n);
    if here >= 0 {
        Some(candles[here].close)
    } else if before >= 0 {
        Some(candles[before].close)
    } else {
        None
    }
}

/// The price of bitcoin at a time.
pub fn price_at(candles: &Vec<Candle>, index: &HashMap<i64, usize>, ts_secs: i64) -> (r: Option<
    Figure,
>)
    requires
        is_index(candles@, index@),
        has_minute_before(ts_secs as int),
    ensures
        r == price_then(candles@, ts_secs as int),
{
    broadcast use group_hash_axioms;

    let rest: i64 = ts_secs % 60;
    let aligned: i64 = ts_secs - rest;
    assert(aligned == minute_of(ts_secs as int));
    proof {
        lemma_candle_at(candles@, aligned as int, candles@.len() as int);
        lemma_candle_at(candles@, aligned - 60, candles@.len() as int);
    }
    if let Some(i) = index.get(&aligned) {
        assert(index@.contains_key(aligned));
        return Some(candles[*i].close);
    }
    let earlier: i64 = aligned - 60;
    if let Some(i) = index.get(&earlier) {
        assert(index@.contains_key(earlier));
        return Some(candles[*i].close);
    }
    assert(!index@.contains_key(aligned) && !index@.contains_key(earlier));
    None
}

/// The first window begins with a multiple of its length, at most one length
/// before the first of the days.
pub proof fn windows_reach_back_far_enough(now: int, days: int, length: int)
    requires
        length > 0,
    ensures
        first_window(now, days, length) % length == 0,
        first_window(now, days, length) <= now - days * DAY_SECS < first_window(now, days, length)
            + length,
{
    let start = now - days * DAY_SECS;
    assert((start - start % length) % length == 0 && 0 <= start % length < length) by (nonlinear_arith)
        requires
            length > 0,
    ;
}

/// A market is undecided exactly where both of its first two prices stay below
/// the price of a winner; a price that cannot be read counts as 0.
pub proof fn decided_markets_have_a_winner(m: MarketView, a: Figure, b: Figure)
    requires
        m.outcome_prices.len() >= 2,
        m.outcome_prices[0] == Some(a) || (m.outcome_prices[0] is None && a == fig(0)),
        m.outcome_prices[1] == Some(b) || (m.outcome_prices[1] is None && b == fig(0)),
    ensures
        !is_decided(m) <==> {
            &&& !a.is_nan() && a.rank() < fig(WON_PRICE).rank()
            &&& !b.is_nan() && b.rank() < fig(WON_PRICE).rank()
        },
{
}

/// Without two prices a market is not decided.
pub proof fn unpriced_markets_are_open(m: MarketView)
    requires
        m.outcome_prices.len() < 2,
    ensures
        !is_decided(m),
{
}

/// A further market of an event adds one record where it is decided, of the
/// event's slug and window and of whether "up" has won by its own price; else
/// none.
pub proof fn decided_markets_are_recorded(slug: Seq<char>, ms: Seq<MarketView>, m: MarketView)
    requires
        0 <= m.up_index() < m.outcome_prices.len(),
    ensures
        records_of(slug, Seq::empty()).len() == 0,
        !is_decided(m) ==> records_of(slug, ms.push(m)) == records_of(slug, ms),
        is_decided(m) ==> {
            let all = records_of(slug, ms.push(m));
            let up_price = m.outcome_prices[m.up_index()];
            &&& all.len() == records_of(slug, ms).len() + 1
            &&& all.drop_last() == records_of(slug, ms)
            &&& all.last().slug == slug
            &&& all.last().start_ts == ts_of_slug(slug)
            &&& all.last().up_won <==> up_price is Some && !up_price->0.is_nan() && fig(
                WON_PRICE,
            ).rank() < up_price->0.rank()
        },
{
    assert(ms.push(m).drop_last() =~= ms);
    if is_decided(m) {
        assert(records_of(slug, ms.push(m)).drop_last() =~= records_of(slug, ms));
    }
}

/// An event without a window in its slug has no records that could be broken; one
/// with a window is broken by every decided market without a price for its "up",
/// and by nothing else.
pub proof fn events_break_by_a_missing_price(e: EventView, i: int)
    ensures
        e.slug is Some ==> (is_dated(e) <==> ts_of_slug(e.slug->0) != 0),
        !is_dated(e) ==> !is_broken(e),
        is_dated(e) && 0 <= i < e.markets.len() && is_decided(e.markets[i])
            && e.markets[i].outcome_prices.len() <= e.markets[i].up_index() ==> is_broken(e),
        (forall|j: int|
            0 <= j < e.markets.len() ==> !is_decided(#[trigger] e.markets[j])
                || e.markets[j].up_index() < e.markets[j].outcome_prices.len()) ==> !is_broken(e),
{
}

proof fn lemma_deduped_ends(s: Seq<MarketRecord>)
    requires
        s.len() > 0,
    ensures
        deduped(s).len() > 0,
        deduped(s).last().slug@ == s.last().slug@,
    decreases s.len(),
{
    if s.len() > 1 {
        lemma_deduped_ends(s.drop_last());
    } else {
        assert(deduped(s.drop_last()).len() == 0);
    }
}

/// Of records that follow each other with one slug the first stays, and nothing
/// else is dropped.
pub proof fn the_first_of_a_slug_stays(s: Seq<MarketRecord>, i: int)
    requires
        0 <= i < s.len(),
        i == 0 || s[i - 1].slug@ != s[i].slug@,
    ensures
        deduped(s).contains(s[i]),
    decreases s.len(),
{
    let rest = s.drop_last();
    let after = deduped(s);
    if i < s.len() - 1 {
        assert(rest[i] == s[i]);
        if i > 0 {
            assert(rest[i - 1] == s[i - 1]);
        }
        the_first_of_a_slug_stays(rest, i);
        let k = choose|k: int| 0 <= k < deduped(rest).len() && deduped(rest)[k] == s[i];
        assert(after[k] == s[i]);
    } else {
        if i > 0 {
            lemma_deduped_ends(rest);
            assert(rest.last() == s[i - 1]);
        } else {
            assert(deduped(rest).len() == 0);
        }
        assert(after[after.len() - 1] == s[i]);
    }
}

/// Tidy records are records that were there.
pub proof fn tidy_records_were_there(s: Seq<MarketRecord>, i: int)
    requires
        0 <= i < deduped(s).len(),
    ensures
        s.contains(deduped(s)[i]),
{
    lemma_deduped_were_there(s);
}

/// The earliest time is that of a record, and no record is earlier.
pub proof fn the_earliest_is_first(s: Seq<MarketRecord>)
    ensures
        s.len() == 0 ==> earliest(s) == 0,
        s.len() > 0 ==> exists|i: int| 0 <= i < s.len() && (#[trigger] s[i]).start_ts == earliest(s),
        forall|i: int| 0 <= i < s.len() ==> earliest(s) <= (#[trigger] s[i]).start_ts,
    decreases s.len(),
{
    if s.len() > 0 {
        let rest = s.drop_last();
        the_earliest_is_first(rest);
        if earliest(s) == s.last().start_ts {
            assert(s[s.len() - 1].start_ts == earliest(s));
        } else {
            let k = choose|k: int| 0 <= k < rest.len() && (#[trigger] rest[k]).start_ts == earliest(
                rest,
            );
            assert(s[k].start_ts == earliest(s));
        }
        assert forall|i: int| 0 <= i < s.len() implies earliest(s) <= (#[trigger] s[i]).start_ts by {
            if i < rest.len() {
                assert(rest[i] == s[i]);
            }
        }
    }
}

/// The price of bitcoin at a time is the close of the last candle that opened
/// with its minute. Without one it is the close of the last that opened a minute
/// earlier, and without either there is none.
pub proof fn prices_are_closes(candles: Seq<Candle>, ts: int, k: int)
    requires
        0 <= ts,
        forall|i: int| 0 <= i < candles.len() ==> 0 <= (#[trigger] candles[i]).open_time_ms,
    ensures
        ({
            let minute = ts - ts % 60;
            let here = |c: Candle| minute * 1000 <= c.open_time_ms < minute * 1000 + 1000;
            let before = |c: Candle|
                (minute - 60) * 1000 <= c.open_time_ms < (minute - 60) * 1000 + 1000;
            let none_here = forall|i: int| 0 <= i < candles.len() ==> !here(#[trigger] candles[i]);
            let none_before = forall|i: int|
                0 <= i < candles.len() ==> !before(#[trigger] candles[i]);
            &&& 0 <= k < candles.len() && here(candles[k]) && (forall|i: int|
                k < i < candles.len() ==> !here(#[trigger] candles[i])) ==> price_then(candles, ts)
                == Some(candles[k].close)
            &&& none_here && 0 <= k < candles.len() && before(candles[k]) && (forall|i: int|
                k < i < candles.len() ==> !before(#[trigger] candles[i])) ==> price_then(
                candles,
                ts,
            ) == Some(candles[k].close)
            &&& none_here && none_before ==> price_then(candles, ts) is None
        }),
{
    let n = candles.len() as int;
    let minute = ts - ts % 60;
    assert(minute_of(ts) == minute);
    lemma_last_candle(candles, minute, n, k);
    lemma_last_candle(candles, minute - 60, n, k);
    lemma_last_candle(candles, minute, n, -1);
    lemma_last_candle(candles, minute - 60, n, -1);
}

/// The candle at `k` is the last of those that open within a second; -1 stands for
/// none.
proof fn lemma_last_candle(candles: Seq<Candle>, secs: int, n: int, k: int)
    requires
        0 <= n <= candles.len(),
        forall|i: int| 0 <= i < candles.len() ==> 0 <= (#[trigger] candles[i]).open_time_ms,
    ensures
        ({
            let within = |c: Candle| secs * 1000 <= c.open_time_ms < secs * 1000 + 1000;
            &&& 0 <= k < n && within(candles[k]) && (forall|i: int|
                k < i < n ==> !within(#[trigger] candles[i])) ==> candle_at(candles, secs, n) == k
            &&& (forall|i: int| 0 <= i < n ==> !within(#[trigger] candles[i])) ==> candle_at(
                candles,
                secs,
                n,
            ) == -1
        }),
    decreases n,
{
    if n > 0 {
        let c = candles[n - 1];
        assert(0 <= c.open_time_ms);
        assert(secs_of(c.open_time_ms as int) == secs <==> secs * 1000 <= c.open_time_ms < secs
            * 1000 + 1000);
        lemma_last_candle(candles, secs, n - 1, k);
    }
}

/// Seconds and minutes are counted towards 0.
pub proof fn seconds_and_minutes_are_cut_off(ms: int, ts: int)
    ensures
        ms >= 0 ==> secs_of(ms) * 1000 <= ms < secs_of(ms) * 1000 + 1000,
        ms < 0 ==> secs_of(ms) == -secs_of(-ms),
        ts >= 0 ==> minute_of(ts) <= ts < minute_of(ts) + 60 && minute_of(ts) % 60 == 0,
        ts < 0 ==> minute_of(ts) == -minute_of(-ts),
{
}

} // verus!
