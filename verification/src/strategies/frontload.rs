//! Frontloading: buy when a market opens, in the direction that bitcoin moved
//! in the window before.

use vstd::prelude::*;

use crate::clock::{
    has_next_window, next_window_ts_at, slug_of, window_of, window_slug, windows_tile_time,
    WINDOW_SECS,
};
use crate::decimal::{notation_reads_back, text_value, Dec};
use crate::figure::{fig, Figure};
use crate::ids::Word;
use crate::market::{events_view, has_verdicts, verdicts, verdicts_of, Event, TargetMarket};
use crate::strategies::{record_purchase, side_token};
use crate::text::{numeral, padded, pow10};
use crate::tracker::{
    outside, resolving_twice_is_resolving_once, settled, SessionTracker, TradeRecord, TradeView,
};
use crate::trading::Side;

verus! {

/// How far back the move is measured, in seconds.
pub const LOOKBACK_SECS: u64 = 300;

/// 20: the smallest move that is traded on, in USD.
pub const MOMENTUM_THRESHOLD: u64 = 0x4034_0000_0000_0000;

/// 0.55: the most that a token may cost when a market opens.
pub const MAX_ENTRY_PRICE: u64 = 0x3FE1_9999_9999_999A;

/// 0.50: what a token costs when a market opens, about.
pub const ENTRY_PRICE: u64 = 0x3FE0_0000_0000_0000;

/// How long prices are remembered, in seconds.
pub const HISTORY_SECS: u64 = 900;

/// Seconds between two samples of the price.
pub const SAMPLE_SECS: u64 = 5;

/// Seconds to wait where no move can be measured.
pub const IDLE_SECS: u64 = 10;

/// Seconds to wait before a market is looked for again.
pub const RETRY_SECS: u64 = 5;

/// Seconds to wait where a window cannot be traded in.
pub const MISSED_SECS: u64 = 250;

/// Seconds past the end of a window by which its market is resolved.
pub const SETTLE_SECS: u64 = 10;

/// Seconds to wait before the outcome of a market is asked for.
pub const OUTCOME_SECS: u64 = 5;

/// Seconds between two rounds.
pub const PAUSE_SECS: u64 = 2;

/// `a - b`, at least 0.
pub open spec fn less_or_zero(a: int, b: int) -> int {
    if a > b {
        a - b
    } else {
        0
    }
}

/// A sample is not older than prices are remembered.
pub open spec fn is_recent(sample: (u64, Figure), now: int) -> bool {
    sample.0 >= less_or_zero(now, HISTORY_SECS as int)
}

/// The history with a sample added and the old ones forgotten.
pub open spec fn sampled(history: Seq<(u64, Figure)>, now: u64, price: Figure) -> Seq<
    (u64, Figure),
> {
    history.push((now, price)).filter(|s: (u64, Figure)| is_recent(s, now as int))
}

/// Remembers a price and forgets the old ones.
pub fn sample(history: &mut Vec<(u64, Figure)>, now: u64, price: Figure)
    ensures
        final(history)@ == sampled(old(history)@, now, price),
{
    history.push((now, price));
    let ghost all = history@;
    let cutoff: u64 = now.saturating_sub(HISTORY_SECS);
    let mut kept: Vec<(u64, Figure)> = Vec::new();
    let mut i: usize = 0;
    let ghost recent = |s: (u64, Figure)| is_recent(s, now as int);
    assert(all.take(0).filter(recent) =~= Seq::empty()) by {
        reveal(Seq::filter);
    }
    while i < history.len()
        invariant
            i <= history@.len(),
            history@ == all,
            cutoff == less_or_zero(now as int, HISTORY_SECS as int),
            recent == (|s: (u64, Figure)| is_recent(s, now as int)),
            kept@ == all.take(i as int).filter(recent),
        decreases history@.len() - i,
    {
        assert(all.take(i + 1).drop_last() =~= all.take(i as int));
        assert(all.take(i + 1).last() == all[i as int]);
        proof {
            reveal(Seq::filter);
        }
        if history[i].0 >= cutoff {
            kept.push(history[i]);
        }
        i = i + 1;
    }
    assert(all.take(i as int) =~= all);
    *history = kept;
}

/// The last sample that is at least the lookback old.
pub open spec fn past_sample(history: Seq<(u64, Figure)>, now: int) -> Option<(u64, Figure)>
    decreases history.len(),
{
    if history.len() == 0 {
        None
    } else if history.last().0 <= less_or_zero(now, LOOKBACK_SECS as int) {
        Some(history.last())
    } else {
        past_sample(history.drop_last(), now)
    }
}

/// The price that a move up to `now` is measured from.
pub fn lookback_price(history: &Vec<(u64, Figure)>, now: u64) -> (r: Option<Figure>)
    ensures
        r == (match past_sample(history@, now as int) {
            Some(s) => Some(s.1),
            None => None,
        }),
{
    let limit: u64 = now.saturating_sub(LOOKBACK_SECS);
    let mut i: usize = history.len();
    assert(history@.take(i as int) =~= history@);
    while i > 0
        invariant
            i <= history@.len(),
            limit == less_or_zero(now as int, LOOKBACK_SECS as int),
            past_sample(history@, now as int) == past_sample(history@.take(i as int), now as int),
        decreases i,
    {
        assert(history@.take(i as int).last() == history@[i - 1]);
        assert(history@.take(i as int).drop_last() =~= history@.take(i - 1));
        let s = history[i - 1];
        if s.0 <= limit {
            return Some(s.1);
        }
        i = i - 1;
    }
    None
}

/// What to do when a window opens.
#[derive(Clone, Copy, Debug, PartialEq, Eq, Structural)]
pub enum Opening {
    /// No price is there: wait so many seconds.
    NoPrice(u64),
    /// No price is old enough: wait so many seconds.
    NoHistory(u64),
    /// The move is too small: wait so many seconds, until the window is over.
    Weak(u64),
    /// Buy in the direction of the move.
    Buy { up: bool },
}

/// The move is worth a trade.
pub open spec fn is_strong(momentum: Figure) -> bool {
    !momentum.unsigned().below(fig(MOMENTUM_THRESHOLD))
}

/// Seconds until a window that opened at `open_ts` is over, one window at most.
pub open spec fn rest_of_window(open_ts: int, now: int) -> int {
    let rest = less_or_zero(open_ts + WINDOW_SECS, now);
    if rest > WINDOW_SECS {
        WINDOW_SECS as int
    } else {
        rest
    }
}

/// What to do when a window has opened at `open_ts`.
pub open spec fn opening_of(
    price: Option<Figure>,
    past: Option<Figure>,
    momentum: Figure,
    open_ts: u64,
    now: u64,
) -> Opening {
    if price is None {
        Opening::NoPrice(IDLE_SECS)
    } else if past is None {
        Opening::NoHistory(IDLE_SECS)
    } else if is_strong(momentum) {
        Opening::Buy { up: fig(0).below(momentum) }
    } else {
        Opening::Weak(rest_of_window(open_ts as int, now as int) as u64)
    }
}

/// What to do when a window has opened at `open_ts`. `momentum` is what the
/// price exceeds the past price by, where both are there.
pub fn opening(
    price: Option<Figure>,
    past: Option<Figure>,
    momentum: Figure,
    open_ts: u64,
    now: u64,
) -> (r: Opening)
    ensures
        r == opening_of(price, past, momentum, open_ts, now),
{
    if price.is_none() {
        return Opening::NoPrice(IDLE_SECS);
    }
    if past.is_none() {
        return Opening::NoHistory(IDLE_SECS);
    }
    if momentum.abs().lt(Figure::from_bits(MOMENTUM_THRESHOLD)) {
        let gone: u64 = now.saturating_sub(open_ts);
        return Opening::Weak(WINDOW_SECS.saturating_sub(gone));
    }
    Opening::Buy { up: Figure::from_bits(0).lt(momentum) }
}

/// What to do about a market that is looked for.
#[derive(Clone, Copy, Debug, PartialEq, Eq, Structural)]
pub enum Lookup {
    /// It is there, and its favoured side is cheap enough.
    Found,
    /// Its favoured side costs too much: leave the window alone, and wait so many
    /// seconds.
    Dear(u64),
    /// Look again after so many seconds.
    Again(u64),
    /// Leave the window alone, and wait so many seconds.
    Missed(u64),
}

/// What to do about a market that is looked for: it is looked for twice. `ask` is
/// what its favoured side is offered at, where the market is there and offers it.
pub open spec fn lookup_of(ask: Option<Figure>, tries: int) -> Lookup {
    match ask {
        Some(ask) => if ask.at_most(fig(MAX_ENTRY_PRICE)) {
            Lookup::Found
        } else {
            Lookup::Dear(MISSED_SECS)
        },
        None => if tries < 2 {
            Lookup::Again(RETRY_SECS)
        } else {
            Lookup::Missed(MISSED_SECS)
        },
    }
}

/// What to do about a market that has been looked for `tries` times.
pub fn lookup(ask: Option<Figure>, tries: u32) -> (r: Lookup)
    ensures
        r == lookup_of(ask, tries as int),
{
    match ask {
        Some(ask) => if ask.le(Figure::from_bits(MAX_ENTRY_PRICE)) {
            Lookup::Found
        } else {
            Lookup::Dear(MISSED_SECS)
        },
        None => if tries < 2 {
            Lookup::Again(RETRY_SECS)
        } else {
            Lookup::Missed(MISSED_SECS)
        },
    }
}

/// The market of a window that opened at `open_ts` is resolved.
pub open spec fn is_over(open_ts: int, now: int) -> bool {
    now >= open_ts + WINDOW_SECS + SETTLE_SECS
}

/// How long to go on waiting for the market of a window that opened at
/// `open_ts`; `None` once it is resolved.
pub fn hold_wait(open_ts: u64, now: u64) -> (r: Option<u64>)
    ensures
        r == (if is_over(open_ts as int, now as int) {
            None
        } else {
            Some(SETTLE_SECS)
        }),
{
    if now >= open_ts && now - open_ts >= WINDOW_SECS + SETTLE_SECS {
        None
    } else {
        Some(SETTLE_SECS)
    }
}

/// The slug of the market that opens at `ts`.
pub fn market_slug(ts: u64) -> (r: String)
    ensures
        r@ == slug_of("btc-updown-5m"@, ts as nat),
{
    window_slug("btc-updown-5m", ts)
}

/// Where a run of rounds stands. A round trades in one window.
#[derive(Clone, Copy, Debug, PartialEq, Eq, Structural)]
pub enum Phase {
    /// Between two rounds.
    Idle,
    /// The window has not opened yet.
    Waiting { open_ts: u64 },
    /// The window has opened.
    Opened { open_ts: u64 },
    /// The market of the window has been looked for so many times.
    Looking { open_ts: u64, up: bool, tries: u32 },
    /// The market is there.
    Buying { open_ts: u64, up: bool },
    /// One side of the market was bought.
    Holding { open_ts: u64 },
    /// The window is over.
    Settling { open_ts: u64 },
}

/// What a run is told.
#[derive(Clone, Copy, Debug, PartialEq, Eq)]
pub enum Happened {
    /// The clock shows so many seconds.
    Clock(u64),
    /// What the price is, what it was, what the one exceeds the other by, and
    /// when.
    Measured { price: Option<Figure>, past: Option<Figure>, momentum: Figure, now: u64 },
    /// What the favoured side is offered at, where the market was found and
    /// offers it.
    Searched(Option<Figure>),
    /// Whether the balance allowed for an order.
    Bought(bool),
    /// The outcome was asked for.
    Settled,
}

/// What a run asks for.
#[derive(Clone, Copy, Debug, PartialEq, Eq, Structural)]
pub enum Todo {
    /// Wait so many seconds, then read the clock.
    Wait(u64),
    /// Sample the price, wait so many seconds, then read the clock.
    Sample(u64),
    /// Measure the move.
    Measure,
    /// Wait so many seconds, then look for the market.
    Search(u64),
    /// Buy a side of the market of a window.
    Buy { open_ts: u64, up: bool },
    /// Wait so many seconds, then ask for the outcome.
    Settle(u64),
}

impl Phase {
    /// A market is looked for twice.
    pub open spec fn wf(self) -> bool {
        self matches Phase::Looking { tries, .. } ==> tries < 2
    }

    /// The window of the round.
    pub open spec fn window_in(self) -> Option<u64> {
        match self {
            Phase::Idle => None,
            Phase::Waiting { open_ts } => Some(open_ts),
            Phase::Opened { open_ts } => Some(open_ts),
            Phase::Looking { open_ts, .. } => Some(open_ts),
            Phase::Buying { open_ts, .. } => Some(open_ts),
            Phase::Holding { open_ts } => Some(open_ts),
            Phase::Settling { open_ts } => Some(open_ts),
        }
    }

    /// The window of the round.
    pub fn window(self) -> (r: Option<u64>)
        ensures
            r == self.window_in(),
    {
        match self {
            Phase::Idle => None,
            Phase::Waiting { open_ts } => Some(open_ts),
            Phase::Opened { open_ts } => Some(open_ts),
            Phase::Looking { open_ts, .. } => Some(open_ts),
            Phase::Buying { open_ts, .. } => Some(open_ts),
            Phase::Holding { open_ts } => Some(open_ts),
            Phase::Settling { open_ts } => Some(open_ts),
        }
    }
}

/// Where a run goes and what it asks for; `None` where it does not wait for what
/// happened, or no window follows on what the clock shows.
pub open spec fn step_of(phase: Phase, event: Happened) -> Option<(Phase, Todo)> {
    match (phase, event) {
        (Phase::Idle, Happened::Clock(now)) => if !has_next_window(now as int) {
            None
        } else {
            Some(
                (
                    Phase::Waiting { open_ts: (window_of(now as int) + WINDOW_SECS) as u64 },
                    Todo::Wait(0),
                ),
            )
        },
        (Phase::Waiting { open_ts }, Happened::Clock(now)) => if now < open_ts {
            Some((phase, Todo::Sample(SAMPLE_SECS)))
        } else {
            Some((Phase::Opened { open_ts }, Todo::Measure))
        },
        (Phase::Opened { open_ts }, Happened::Measured { price, past, momentum, now }) => Some(
            match opening_of(price, past, momentum, open_ts, now) {
                Opening::Buy { up } => (Phase::Looking { open_ts, up, tries: 0 }, Todo::Search(0)),
                Opening::NoPrice(secs) => (Phase::Idle, Todo::Wait(secs)),
                Opening::NoHistory(secs) => (Phase::Idle, Todo::Wait(secs)),
                Opening::Weak(secs) => (Phase::Idle, Todo::Wait(secs)),
            },
        ),
        (Phase::Looking { open_ts, up, tries }, Happened::Searched(ask)) => Some(
            match lookup_of(ask, tries + 1) {
                Lookup::Found => (Phase::Buying { open_ts, up }, Todo::Buy { open_ts, up }),
                Lookup::Dear(secs) => (Phase::Idle, Todo::Wait(secs)),
                Lookup::Again(secs) => (
                    Phase::Looking { open_ts, up, tries: (tries + 1) as u32 },
                    Todo::Search(secs),
                ),
                Lookup::Missed(secs) => (Phase::Idle, Todo::Wait(secs)),
            },
        ),
        (Phase::Buying { open_ts, .. }, Happened::Bought(done)) => Some(
            if done {
                (Phase::Holding { open_ts }, Todo::Wait(0))
            } else {
                (Phase::Idle, Todo::Wait(MISSED_SECS))
            },
        ),
        (Phase::Holding { open_ts }, Happened::Clock(now)) => if is_over(
            open_ts as int,
            now as int,
        ) {
            Some((Phase::Settling { open_ts }, Todo::Settle(OUTCOME_SECS)))
        } else {
            Some((phase, Todo::Wait(SETTLE_SECS)))
        },
        (Phase::Settling { .. }, Happened::Settled) => Some((Phase::Idle, Todo::Wait(PAUSE_SECS))),
        _ => None,
    }
}

/// Takes in what happened: where a run goes and what it asks for.
pub fn step(phase: Phase, event: Happened) -> (r: Option<(Phase, Todo)>)
    requires
        phase.wf(),
    ensures
        r == step_of(phase, event),
        match r {
            Some((next, _)) => next.wf(),
            None => true,
        },
        match (event, r) {
            (Happened::Searched(Some(ask)), Some((_, task))) => fig(MAX_ENTRY_PRICE).below(ask)
                ==> !(task is Buy),
            _ => true,
        },
{
    match (phase, event) {
        (Phase::Idle, Happened::Clock(now)) => {
            match next_window_ts_at(Some(now)) {
                Some(open_ts) => Some((Phase::Waiting { open_ts }, Todo::Wait(0))),
                None => None,
            }
        },
        (Phase::Waiting { open_ts }, Happened::Clock(now)) => {
            if now < open_ts {
                return Some((phase, Todo::Sample(SAMPLE_SECS)));
            }
            Some((Phase::Opened { open_ts }, Todo::Measure))
        },
        (Phase::Opened { open_ts }, Happened::Measured { price, past, momentum, now }) => {
            Some(
                match opening(price, past, momentum, open_ts, now) {
                    Opening::Buy { up } => (
                        Phase::Looking { open_ts, up, tries: 0 },
                        Todo::Search(0),
                    ),
                    Opening::NoPrice(secs) => (Phase::Idle, Todo::Wait(secs)),
                    Opening::NoHistory(secs) => (Phase::Idle, Todo::Wait(secs)),
                    Opening::Weak(secs) => (Phase::Idle, Todo::Wait(secs)),
                },
            )
        },
        (Phase::Looking { open_ts, up, tries }, Happened::Searched(ask)) => {
            Some(
                match lookup(ask, tries + 1) {
                    Lookup::Found => (Phase::Buying { open_ts, up }, Todo::Buy { open_ts, up }),
                    Lookup::Dear(secs) => (Phase::Idle, Todo::Wait(secs)),
                    Lookup::Again(secs) => (
                        Phase::Looking { open_ts, up, tries: tries + 1 },
                        Todo::Search(secs),
                    ),
                    Lookup::Missed(secs) => (Phase::Idle, Todo::Wait(secs)),
                },
            )
        },
        (Phase::Buying { open_ts, .. }, Happened::Bought(done)) => {
            if done {
                Some((Phase::Holding { open_ts }, Todo::Wait(0)))
            } else {
                Some((Phase::Idle, Todo::Wait(MISSED_SECS)))
            }
        },
        (Phase::Holding { open_ts }, Happened::Clock(now)) => {
            match hold_wait(open_ts, now) {
                None => Some((Phase::Settling { open_ts }, Todo::Settle(OUTCOME_SECS))),
                Some(secs) => Some((phase, Todo::Wait(secs))),
            }
        },
        (Phase::Settling { .. }, Happened::Settled) => {
            Some((Phase::Idle, Todo::Wait(PAUSE_SECS)))
        },
        _ => None,
    }
}

/// What a token is taken to cost when a market opens: 0.5.
pub open spec fn entry_price() -> Dec {
    Dec { mantissa: 5, scale: 1 }
}

proof fn lemma_entry_text()
    ensures
        text_value("0.5"@) == Some(entry_price()),
{
    let d = entry_price();
    reveal_strlit("0.5");
    assert(pow10(1) == 10 * pow10(0));
    assert(numeral(0) =~= seq!['0']);
    assert(padded(5, 1) =~= seq!['5']) by {
        reveal_with_fuel(padded, 2);
    }
    assert(d.notation() =~= "0.5"@);
    notation_reads_back(d);
}

/// Writes down that one side of a market was bought when it opened, at the price
/// that it then costs, about. The trade counts as executed only in a live session.
pub fn record_entry(
    tracker: &mut SessionTracker,
    timestamp: String,
    target: &TargetMarket,
    up: bool,
    amount: Dec,
    executed: bool,
    live: bool,
) -> (r: TradeRecord)
    requires
        old(tracker).wf(),
        amount.wf(),
    ensures
        final(tracker).wf(),
        final(tracker).adds(
            *old(tracker),
            r,
            TradeView {
                timestamp: timestamp@,
                mode: "frontload"@,
                market: target.question@,
                side: Side::Buy,
                amount_usdc: amount,
                price: fig(ENTRY_PRICE),
                price_dec: entry_price(),
                executed: executed && live,
                condition_id: Some(target.condition_id),
                token_id: side_token(*target, up),
                bought_up: up,
            },
        ),
{
    proof {
        lemma_entry_text();
    }
    record_purchase(
        tracker,
        timestamp,
        "frontload",
        target,
        up,
        amount,
        Figure::from_bits(ENTRY_PRICE),
        "0.5",
        executed,
        live,
    )
}

/// Why the positions of a market are not settled.
#[derive(Clone, Copy, Debug, PartialEq, Eq, Structural)]
pub enum Unsettled {
    /// A market has prices, but none for its "up".
    UpOutOfRange,
    /// The profit is not a decimal number.
    Profit,
}

/// Settles the positions of a market by the outcomes in its events, of which the
/// first one counts: it leaves no position to the others. Gives back all of
/// them. Nothing changes where there is an error.
pub fn settle(tracker: &mut SessionTracker, condition_id: Word, events: &Vec<Event>) -> (r: Result<
    Vec<bool>,
    Unsettled,
>)
    requires
        old(tracker).wf(),
    ensures
        final(tracker).wf(),
        final(tracker).start() == old(tracker).start(),
        final(tracker).log() == old(tracker).log(),
        final(tracker).file() == old(tracker).file(),
        ({
            let es = events_view(events@);
            let known = verdicts_of(es);
            let profit = settled(
                old(tracker).held(),
                old(tracker).profit(),
                condition_id,
                known[0],
            );
            let unchanged = final(tracker).held() == old(tracker).held()
                && final(tracker).profit() == old(tracker).profit();
            match r {
                Err(Unsettled::UpOutOfRange) => unchanged && !has_verdicts(es),
                Err(Unsettled::Profit) => unchanged && has_verdicts(es) && known.len() > 0
                    && profit is None,
                Ok(all) => {
                    &&& has_verdicts(es)
                    &&& all@ == known
                    &&& known.len() == 0 ==> unchanged
                    &&& known.len() > 0 ==> {
                        &&& profit == Some(final(tracker).profit())
                        &&& final(tracker).held() == outside(old(tracker).held(), condition_id)
                    }
                },
            }
        }),
{
    let all: Vec<bool> = match verdicts(events) {
        Ok(all) => all,
        Err(_) => {
            return Err(Unsettled::UpOutOfRange);
        },
    };
    let ghost before = *tracker;
    let mut i: usize = 0;
    while i < all.len()
        invariant
            i <= all@.len(),
            has_verdicts(events_view(events@)),
            all@ == verdicts_of(events_view(events@)),
            before == *old(tracker),
            tracker.wf(),
            tracker.start() == before.start(),
            tracker.log() == before.log(),
            tracker.file() == before.file(),
            i == 0 ==> tracker.held() == before.held() && tracker.profit() == before.profit(),
            i > 0 ==> {
                &&& settled(before.held(), before.profit(), condition_id, all@[0]) == Some(
                    tracker.profit(),
                )
                &&& tracker.held() == outside(before.held(), condition_id)
            },
        decreases all@.len() - i,
    {
        proof {
            if i > 0 {
                resolving_twice_is_resolving_once(
                    before.held(),
                    tracker.profit(),
                    condition_id,
                    all@[i as int],
                );
            }
        }
        let done: bool = tracker.checked_resolve_market(condition_id, all[i]);
        if !done {
            return Err(Unsettled::Profit);
        }
        i = i + 1;
    }
    Ok(all)
}

proof fn lemma_past_sample(history: Seq<(u64, Figure)>, now: int)
    ensures
        match past_sample(history, now) {
            Some(s) => history.contains(s) && s.0 <= less_or_zero(now, LOOKBACK_SECS as int),
            None => forall|i: int|
                0 <= i < history.len() ==> (#[trigger] history[i]).0 > less_or_zero(
                    now,
                    LOOKBACK_SECS as int,
                ),
        },
    decreases history.len(),
{
    if history.len() > 0 {
        if history.last().0 <= less_or_zero(now, LOOKBACK_SECS as int) {
            assert(history[history.len() - 1] == history.last());
        } else {
            lemma_past_sample(history.drop_last(), now);
            match past_sample(history.drop_last(), now) {
                Some(s) => {
                    let i = history.drop_last().index_of(s);
                    assert(history.drop_last()[i] == history[i]);
                },
                None => {
                    assert forall|i: int| 0 <= i < history.len() implies (#[trigger] history[i]).0
                        > less_or_zero(now, LOOKBACK_SECS as int) by {
                        if i < history.len() - 1 {
                            assert(history.drop_last()[i] == history[i]);
                        }
                    }
                },
            }
        }
    }
}

/// A move is measured from a price that was sampled at least the lookback ago,
/// and is measured wherever there is one.
pub proof fn moves_span_the_lookback(history: Seq<(u64, Figure)>, now: int)
    requires
        now >= LOOKBACK_SECS,
    ensures
        match past_sample(history, now) {
            Some(s) => history.contains(s) && s.0 + LOOKBACK_SECS <= now,
            None => forall|i: int|
                0 <= i < history.len() ==> (#[trigger] history[i]).0 + LOOKBACK_SECS > now,
        },
{
    lemma_past_sample(history, now);
}

/// After a sample the history holds it, and nothing that is too old.
pub proof fn history_stays_short(history: Seq<(u64, Figure)>, now: u64, price: Figure)
    ensures
        sampled(history, now, price).contains((now, price)),
        forall|i: int|
            0 <= i < sampled(history, now, price).len() ==> is_recent(
                #[trigger] sampled(history, now, price)[i],
                now as int,
            ),
{
    let all = history.push((now, price));
    let recent = |s: (u64, Figure)| is_recent(s, now as int);
    assert(all[all.len() - 1] == (now, price));
    broadcast use vstd::seq_lib::group_filter_ensures;
}

/// Where a run stands after a number of events; it ignores what it does not
/// wait for.
pub open spec fn ran(events: Seq<Happened>) -> Phase
    decreases events.len(),
{
    if events.len() == 0 {
        Phase::Idle
    } else {
        let before = ran(events.drop_last());
        match step_of(before, events.last()) {
            Some((next, _)) => next,
            None => before,
        }
    }
}

/// What a run asks for at the event of place `i`.
pub open spec fn asked(events: Seq<Happened>, i: int) -> Option<Todo> {
    match step_of(ran(events.take(i)), events[i]) {
        Some((_, todo)) => Some(todo),
        None => None,
    }
}

/// At the event of place `i` a strong move is measured, up or down, in the window
/// at `open_ts`.
pub open spec fn measured(events: Seq<Happened>, i: int, open_ts: u64, up: bool) -> bool {
    &&& ran(events.take(i)) == Phase::Opened { open_ts }
    &&& events[i] matches Happened::Measured { price, past, momentum, .. }
    &&& price is Some
    &&& past is Some
    &&& is_strong(momentum)
    &&& up == fig(0).below(momentum)
}

/// The clock never goes back.
pub open spec fn runs_forward(events: Seq<Happened>) -> bool {
    forall|i: int, j: int|
        0 <= i < j < events.len() ==> match (#[trigger] events[i], #[trigger] events[j]) {
            (Happened::Clock(a), Happened::Clock(b)) => a <= b,
            _ => true,
        }
}

proof fn lemma_one_more(events: Seq<Happened>, n: int)
    requires
        0 <= n < events.len(),
    ensures
        ran(events.take(n + 1)) == (match step_of(ran(events.take(n)), events[n]) {
            Some((next, _)) => next,
            None => ran(events.take(n)),
        }),
{
    assert(events.take(n + 1).drop_last() =~= events.take(n));
    assert(events.take(n + 1).last() == events[n]);
}

/// A side that is about to be bought is that of a strong move.
proof fn lemma_measured(events: Seq<Happened>, n: int, open_ts: u64, up: bool)
    requires
        0 <= n <= events.len(),
        ran(events.take(n)) matches Phase::Looking { open_ts: o, up: u, .. } && o == open_ts && u
            == up,
    ensures
        exists|j: int| 0 <= j < n && #[trigger] measured(events, j, open_ts, up),
    decreases n,
{
    if n == 0 {
        assert(events.take(0).len() == 0);
    } else {
        lemma_one_more(events, n - 1);
        if ran(events.take(n - 1)) is Looking {
            lemma_measured(events, n - 1, open_ts, up);
        } else {
            assert(measured(events, n - 1, open_ts, up));
        }
    }
}

/// A window that is past waiting for has opened.
proof fn lemma_opened(events: Seq<Happened>, n: int)
    requires
        0 <= n <= events.len(),
        ran(events.take(n)).window_in() is Some,
        !(ran(events.take(n)) is Waiting),
    ensures
        exists|j: int|
            0 <= j < n && (#[trigger] events[j] matches Happened::Clock(now) && now >= ran(
                events.take(n),
            ).window_in()->0),
    decreases n,
{
    if n == 0 {
        assert(events.take(0).len() == 0);
    } else {
        lemma_one_more(events, n - 1);
        let before = ran(events.take(n - 1));
        if before.window_in() is Some && !(before is Waiting) {
            lemma_opened(events, n - 1);
        } else {
            assert(events[n - 1] is Clock);
        }
    }
}

/// After a purchase in the window at `open_ts` a run is past buying in it, idle,
/// or in a later window.
proof fn lemma_after_purchase(events: Seq<Happened>, i: int, n: int, open_ts: u64, up: bool)
    requires
        0 <= i < n <= events.len(),
        runs_forward(events),
        asked(events, i) == Some(Todo::Buy { open_ts, up }),
    ensures
        ({
            let phase = ran(events.take(n));
            match phase.window_in() {
                None => true,
                Some(o) => o > open_ts || (o == open_ts && (phase is Buying || phase is Holding
                    || phase is Settling)),
            }
        }),
    decreases n,
{
    lemma_one_more(events, n - 1);
    if n > i + 1 {
        lemma_after_purchase(events, i, n - 1, open_ts, up);
        if ran(events.take(n - 1)) is Idle && !(ran(events.take(n)) is Idle) {
            lemma_opened(events, i);
            let j = choose|j: int|
                0 <= j < i && (#[trigger] events[j] matches Happened::Clock(now) && now
                    >= ran(events.take(i)).window_in()->0);
            let now = events[n - 1]->Clock_0;
            assert(events[j]->Clock_0 <= now);
            windows_tile_time(now as int);
        }
    }
}

/// What is bought is the side of a strong move that was measured when the window
/// opened.
pub proof fn purchases_follow_a_strong_move(
    events: Seq<Happened>,
    i: int,
    open_ts: u64,
    up: bool,
)
    requires
        0 <= i < events.len(),
        asked(events, i) == Some(Todo::Buy { open_ts, up }),
    ensures
        exists|j: int| 0 <= j < i && #[trigger] measured(events, j, open_ts, up),
{
    lemma_measured(events, i, open_ts, up);
}

/// What is bought is offered at the largest entry price at most when it is bought.
pub proof fn purchases_are_cheap_enough(events: Seq<Happened>, i: int, open_ts: u64, up: bool)
    requires
        0 <= i < events.len(),
        asked(events, i) == Some(Todo::Buy { open_ts, up }),
    ensures
        events[i] matches Happened::Searched(Some(ask)) && ask.at_most(fig(MAX_ENTRY_PRICE))
            && !fig(MAX_ENTRY_PRICE).below(ask),
{
}

/// As long as the clock does not go back, a window is bought into once at most:
/// of two purchases the later one is in a later window.
pub proof fn one_purchase_per_window(
    events: Seq<Happened>,
    i: int,
    j: int,
    first: u64,
    up: bool,
    second: u64,
    up_again: bool,
)
    requires
        0 <= i < j < events.len(),
        runs_forward(events),
        asked(events, i) == Some(Todo::Buy { open_ts: first, up }),
        asked(events, j) == Some(Todo::Buy { open_ts: second, up: up_again }),
    ensures
        first < second,
{
    lemma_after_purchase(events, i, j, first, up);
}

/// A purchase is held until its window is over, whatever else happens, and its
/// outcome is asked for then.
pub proof fn purchases_are_held(open_ts: u64, event: Happened)
    ensures
        match step_of(Phase::Holding { open_ts }, event) {
            None => true,
            Some((next, todo)) => if event matches Happened::Clock(now) && is_over(
                open_ts as int,
                now as int,
            ) {
                next == Phase::Settling { open_ts } && todo == Todo::Settle(OUTCOME_SECS)
            } else {
                next == Phase::Holding { open_ts } && todo == Todo::Wait(SETTLE_SECS)
            },
        },
{
}

/// A side that is offered at the largest entry price or less is bought, however
/// cheap and however often it was looked for; one that is offered for more, or
/// at no number, is left alone for the rest of the window.
pub proof fn cheap_enough_sides_are_bought(open_ts: u64, up: bool, tries: u32, ask: Figure)
    ensures
        ask.at_most(fig(MAX_ENTRY_PRICE)) ==> step_of(
            Phase::Looking { open_ts, up, tries },
            Happened::Searched(Some(ask)),
        ) == Some((Phase::Buying { open_ts, up }, Todo::Buy { open_ts, up })),
        !ask.at_most(fig(MAX_ENTRY_PRICE)) ==> step_of(
            Phase::Looking { open_ts, up, tries },
            Happened::Searched(Some(ask)),
        ) == Some((Phase::Idle, Todo::Wait(MISSED_SECS))),
{
}

/// A market that is not there is looked for once more, for the same side of the
/// same window, and then left alone.
pub proof fn a_market_is_looked_for_twice(open_ts: u64, up: bool, tries: u32)
    requires
        tries < u32::MAX,
    ensures
        tries == 0 ==> step_of(
            Phase::Looking { open_ts, up, tries },
            Happened::Searched(None),
        ) == Some((Phase::Looking { open_ts, up, tries: 1 }, Todo::Search(RETRY_SECS))),
        tries > 0 ==> step_of(Phase::Looking { open_ts, up, tries }, Happened::Searched(None))
            == Some((Phase::Idle, Todo::Wait(MISSED_SECS))),
{
}

/// When a window opens, its market is looked for exactly where both prices are
/// there and the move between them reaches the threshold either way: for "up"
/// where the price rose, for "down" where it fell or the move is no number. A
/// smaller move leaves the window alone until it is over; a missing price is
/// waited for.
pub proof fn strong_moves_are_followed(
    open_ts: u64,
    price: Option<Figure>,
    past: Option<Figure>,
    momentum: Figure,
    now: u64,
)
    ensures
        ({
            let event = Happened::Measured { price, past, momentum, now };
            let r = step_of(Phase::Opened { open_ts }, event);
            let limit = fig(MOMENTUM_THRESHOLD).rank();
            let strong = momentum.is_nan() || limit <= momentum.rank() || limit
                <= -momentum.rank();
            let rose = !momentum.is_nan() && momentum.rank() > 0;
            &&& price is None || past is None ==> r == Some((Phase::Idle, Todo::Wait(IDLE_SECS)))
            &&& price is Some && past is Some && strong ==> r == Some(
                (
                    Phase::Looking { open_ts, up: rose, tries: 0 },
                    Todo::Search(0),
                ),
            )
            &&& price is Some && past is Some && !strong && now <= open_ts ==> r == Some(
                (Phase::Idle, Todo::Wait(WINDOW_SECS)),
            )
            &&& price is Some && past is Some && !strong && open_ts < now < open_ts + WINDOW_SECS
                ==> r == Some((Phase::Idle, Todo::Wait((open_ts + WINDOW_SECS - now) as u64)))
            &&& price is Some && past is Some && !strong && now >= open_ts + WINDOW_SECS ==> r
                == Some((Phase::Idle, Todo::Wait(0)))
        }),
{
}

/// A round begins with the next window, waits for it, and samples prices until it
/// opens.
pub proof fn rounds_wait_for_the_next_window(now: u64, open_ts: u64)
    ensures
        ({
            let r = step_of(Phase::Idle, Happened::Clock(now));
            &&& r matches Some((next, task)) ==> {
                &&& task == Todo::Wait(0)
                &&& next matches Phase::Waiting { open_ts: o }
                &&& o as int % WINDOW_SECS as int == 0
                &&& now < o <= now + WINDOW_SECS
            }
            &&& now + WINDOW_SECS <= u64::MAX ==> r is Some
        }),
        now < open_ts ==> step_of(Phase::Waiting { open_ts }, Happened::Clock(now)) == Some(
            (Phase::Waiting { open_ts }, Todo::Sample(SAMPLE_SECS)),
        ),
        now >= open_ts ==> step_of(Phase::Waiting { open_ts }, Happened::Clock(now)) == Some(
            (Phase::Opened { open_ts }, Todo::Measure),
        ),
{
    windows_tile_time(now as int);
}

/// After an order the position is held until the window and the time to settle
/// are over; without one the window is left alone. Then a new round begins.
pub proof fn orders_are_seen_through(open_ts: u64, up: bool, done: bool, now: u64)
    ensures
        done ==> step_of(Phase::Buying { open_ts, up }, Happened::Bought(done)) == Some(
            (Phase::Holding { open_ts }, Todo::Wait(0)),
        ),
        !done ==> step_of(Phase::Buying { open_ts, up }, Happened::Bought(done)) == Some(
            (Phase::Idle, Todo::Wait(MISSED_SECS)),
        ),
        now >= open_ts + WINDOW_SECS + SETTLE_SECS ==> step_of(
            Phase::Holding { open_ts },
            Happened::Clock(now),
        ) == Some((Phase::Settling { open_ts }, Todo::Settle(OUTCOME_SECS))),
        now < open_ts + WINDOW_SECS + SETTLE_SECS ==> step_of(
            Phase::Holding { open_ts },
            Happened::Clock(now),
        ) == Some((Phase::Holding { open_ts }, Todo::Wait(SETTLE_SECS))),
        step_of(Phase::Settling { open_ts }, Happened::Settled) == Some(
            (Phase::Idle, Todo::Wait(PAUSE_SECS)),
        ),
{
}

/// A run ignores what it did not ask for.
pub proof fn nothing_else_is_heard(phase: Phase, event: Happened)
    ensures
        step_of(phase, event) is Some ==> match phase {
            Phase::Idle => event is Clock,
            Phase::Waiting { .. } => event is Clock,
            Phase::Opened { .. } => event is Measured,
            Phase::Looking { .. } => event is Searched,
            Phase::Buying { .. } => event is Bought,
            Phase::Holding { .. } => event is Clock,
            Phase::Settling { .. } => event is Settled,
        },
{
}

/// A move is measured from the latest of the samples that are at least the
/// lookback old: the sample at `i` is the one, where every later one is younger.
pub proof fn moves_are_measured_from_the_latest(history: Seq<(u64, Figure)>, now: int, i: int)
    requires
        now >= LOOKBACK_SECS,
        0 <= i < history.len(),
        history[i].0 + LOOKBACK_SECS <= now,
        forall|j: int| i < j < history.len() ==> (#[trigger] history[j]).0 + LOOKBACK_SECS > now,
    ensures
        past_sample(history, now) == Some(history[i]),
    decreases history.len(),
{
    if i < history.len() - 1 {
        let rest = history.drop_last();
        assert(history[history.len() - 1].0 + LOOKBACK_SECS > now);
        assert forall|j: int| i < j < rest.len() implies (#[trigger] rest[j]).0 + LOOKBACK_SECS
            > now by {
            assert(rest[j] == history[j]);
        }
        moves_are_measured_from_the_latest(rest, now, i);
    }
}

/// A sample goes to the end of the history. One that is no older than prices are
/// remembered stays, and where all are, nothing else changes.
pub proof fn recent_samples_are_kept(
    history: Seq<(u64, Figure)>,
    now: u64,
    price: Figure,
    i: int,
)
    ensures
        0 <= i < history.len() && history[i].0 + HISTORY_SECS >= now ==> sampled(
            history,
            now,
            price,
        ).contains(history[i]),
        sampled(history, now, price).len() > 0,
        sampled(history, now, price).last() == (now, price),
        (forall|j: int| 0 <= j < history.len() ==> (#[trigger] history[j]).0 + HISTORY_SECS >= now)
            ==> sampled(history, now, price) == history.push((now, price)),
{
    let all = history.push((now, price));
    let recent = |s: (u64, Figure)| is_recent(s, now as int);
    reveal(Seq::filter);
    assert(all.drop_last() =~= history);
    assert(sampled(history, now, price) =~= history.filter(recent).push((now, price)));
    if 0 <= i < history.len() && history[i].0 + HISTORY_SECS >= now {
        assert(all[i] == history[i]);
        assert(recent(all[i]));
        broadcast use vstd::seq_lib::group_filter_ensures;

        assert(all.filter(recent).contains(all[i]));
    }
    if forall|j: int| 0 <= j < history.len() ==> (#[trigger] history[j]).0 + HISTORY_SECS >= now {
        lemma_all_recent(history, now);
    }
}

proof fn lemma_all_recent(history: Seq<(u64, Figure)>, now: u64)
    requires
        forall|j: int| 0 <= j < history.len() ==> (#[trigger] history[j]).0 + HISTORY_SECS >= now,
    ensures
        history.filter(|s: (u64, Figure)| is_recent(s, now as int)) == history,
    decreases history.len(),
{
    reveal(Seq::filter);
    if history.len() > 0 {
        let rest = history.drop_last();
        assert forall|j: int| 0 <= j < rest.len() implies (#[trigger] rest[j]).0 + HISTORY_SECS
            >= now by {
            assert(rest[j] == history[j]);
        }
        lemma_all_recent(rest, now);
        assert(history[history.len() - 1].0 + HISTORY_SECS >= now);
        assert(rest.push(history.last()) =~= history);
    } else {
        assert(history.filter(|s: (u64, Figure)| is_recent(s, now as int)) =~= history);
    }
}

} // verus!
