//! Time: five-minute windows, moments, and the slugs that name a window.

use std::time::UNIX_EPOCH;

use vstd::prelude::*;

use crate::text::{
    after_last, after_last_holds_no_mark, after_last_of_joined, is_digit, number_text, numeral,
    numeral_reads_back, parse_i64, read_i64, signed_numeral_reads_back, tail_after,
};

verus! {

/// The length of a short window in seconds.
pub const WINDOW_SECS: u64 = 300;

/// Nanoseconds in a second.
pub const NANOS: i128 = 1_000_000_000;

/// When the five-minute window around `now` began.
pub open spec fn window_of(now: int) -> int {
    now - now % 300
}

/// Calls `SystemTime::elapsed` on the Unix epoch: the whole seconds from it to
/// what the clock shows, `None` where the clock stands before it. Nothing is
/// promised of what a clock shows.
#[verifier::external_body]
fn read_clock() -> (r: Option<u64>) {
    UNIX_EPOCH.elapsed().ok().map(|d| d.as_secs())
}

/// The current time in seconds since the Unix epoch, whatever the clock shows;
/// `None` where it stands before the epoch.
pub fn current_ts() -> (r: Option<u64>) {
    read_clock()
}

/// When the window around `now` began.
pub fn window_start(now: u64) -> (r: u64)
    ensures
        r == window_of(now as int),
        r <= now < r + WINDOW_SECS,
        r % WINDOW_SECS == 0,
{
    now - now % WINDOW_SECS
}

/// The window after the one around `now` begins at a time that fits in 64 bits.
pub open spec fn has_next_window(now: int) -> bool {
    window_of(now) + WINDOW_SECS <= u64::MAX
}

/// When the window after the one around `now` begins.
pub fn next_window_start(now: u64) -> (r: u64)
    requires
        has_next_window(now as int),
    ensures
        r == window_of(now as int) + WINDOW_SECS,
        now < r <= now + WINDOW_SECS,
        r % WINDOW_SECS == 0,
{
    window_start(now) + WINDOW_SECS
}

/// When the current window began.
pub fn current_5m_window_ts() -> (r: Option<u64>)
    ensures
        r is Some ==> r->0 % WINDOW_SECS == 0,
{
    window_ts_at(read_clock())
}

/// When the window began that a clock shows, where it shows a time.
pub fn window_ts_at(reading: Option<u64>) -> (r: Option<u64>)
    ensures
        r == (match reading {
            Some(now) => Some(window_of(now as int) as u64),
            None => None,
        }),
        r is Some ==> r->0 % WINDOW_SECS == 0,
{
    match reading {
        Some(now) => Some(window_start(now)),
        None => None,
    }
}

/// When the next window begins.
pub fn next_window_ts() -> (r: Option<u64>)
    ensures
        r is Some ==> WINDOW_SECS <= r->0 && r->0 % WINDOW_SECS == 0,
{
    next_window_ts_at(read_clock())
}

/// When the window after the one begins that a clock shows, where it shows a time
/// and there is such a window.
pub fn next_window_ts_at(reading: Option<u64>) -> (r: Option<u64>)
    ensures
        r == (match reading {
            Some(now) => if has_next_window(now as int) {
                Some((window_of(now as int) + WINDOW_SECS) as u64)
            } else {
                None
            },
            None => None,
        }),
        r is Some ==> WINDOW_SECS <= r->0 && r->0 % WINDOW_SECS == 0,
{
    match reading {
        Some(now) => if window_start(now) <= u64::MAX - WINDOW_SECS {
            Some(next_window_start(now))
        } else {
            None
        },
        None => None,
    }
}

/// The seconds from `now` to `then`, none where `then` has passed.
pub fn secs_until(then: u64, now: u64) -> (r: u64)
    ensures
        r == (if then > now { then - now } else { 0 }),
{
    if then > now {
        then - now
    } else {
        0
    }
}

/// A moment: seconds since the Unix epoch and nanoseconds within the second.
#[derive(Clone, Copy, Debug, PartialEq, Eq, Structural)]
pub struct Moment {
    pub secs: i64,
    pub nanos: u32,
}

impl Moment {
    pub open spec fn wf(self) -> bool {
        -0x3FFF_FFFF_FFFF_FFFF <= self.secs <= 0x3FFF_FFFF_FFFF_FFFF && self.nanos < NANOS
    }

    /// The moment in nanoseconds since the epoch.
    pub open spec fn total(self) -> int {
        self.secs * NANOS + self.nanos
    }
}

/// A span of nanoseconds in whole seconds, the rest dropped.
pub open spec fn whole_secs(nanos: int) -> int {
    if nanos < 0 {
        -((-nanos) / (NANOS as int))
    } else {
        nanos / (NANOS as int)
    }
}

/// The whole seconds left from `now` to `end`, negative once `end` has passed.
pub fn remaining_secs(end: Moment, now: Moment) -> (r: i64)
    requires
        end.wf(),
        now.wf(),
    ensures
        r == whole_secs(end.total() - now.total()),
{
    let nanos: i128 = (end.secs as i128 - now.secs as i128) * NANOS + (end.nanos as i128
        - now.nanos as i128);
    if nanos < 0 {
        (-((-nanos) / NANOS)) as i64
    } else {
        (nanos / NANOS) as i64
    }
}

/// The slug of the window that begins at `ts`.
pub open spec fn slug_of(prefix: Seq<char>, ts: nat) -> Seq<char> {
    prefix.push('-') + numeral(ts)
}

/// The slug of the window that begins at `ts`: prefix, dash, number.
pub fn window_slug(prefix: &str, ts: u64) -> (r: String)
    ensures
        r@ == slug_of(prefix@, ts as nat),
{
    let mut slug = prefix.to_owned();
    proof {
        reveal_strlit("-");
    }
    slug.append("-");
    slug.append(number_text(ts).as_str());
    assert(slug@ =~= slug_of(prefix@, ts as nat));
    slug
}

/// The number at the end of a slug: what follows its last dash, 0 where that is
/// no number.
pub open spec fn ts_of_slug(slug: Seq<char>) -> int {
    match read_i64(after_last(slug, '-')) {
        Some(ts) => ts,
        None => 0,
    }
}

/// When the window of a slug begins; 0 where the slug does not say.
pub fn slug_ts(slug: &str) -> (r: i64)
    ensures
        r == ts_of_slug(slug@),
{
    match parse_i64(tail_after(slug, '-')) {
        Some(ts) => ts,
        None => 0,
    }
}

/// A slug gives back the time that it was made for.
pub proof fn slug_reads_back(prefix: Seq<char>, ts: nat)
    requires
        ts <= i64::MAX,
    ensures
        ts_of_slug(slug_of(prefix, ts)) == ts,
{
    numeral_reads_back(ts);
    let tail = numeral(ts);
    if tail.contains('-') {
        let i = choose|i: int| 0 <= i < tail.len() && tail[i] == '-';
        assert(is_digit(tail[i]));
    }
    after_last_of_joined(prefix, tail, '-');
    signed_numeral_reads_back(ts as int);
}

/// No slug names a time before the epoch: the dash is no sign.
pub proof fn slug_times_are_not_negative(slug: Seq<char>)
    ensures
        ts_of_slug(slug) >= 0,
{
    after_last_holds_no_mark(slug, '-');
    let tail = after_last(slug, '-');
    if tail.len() > 0 {
        assert(tail.contains(tail[0]));
    }
}

/// Every second lies in one window: it begins at a multiple of its length, at
/// most one length before, and the windows of one length on follow each other.
pub proof fn windows_tile_time(now: int)
    ensures
        window_of(now) <= now < window_of(now) + 300,
        window_of(now) % 300 == 0,
        window_of(window_of(now)) == window_of(now),
        window_of(now + 300) == window_of(now) + 300,
{
}

/// A market has ended, by `remaining_secs`, from one second before its end on
/// and not earlier.
pub proof fn ended_within_a_second(end: Moment, now: Moment)
    ensures
        whole_secs(end.total() - now.total()) <= 0 <==> end.total() - now.total() < NANOS,
{
}

/// Seconds are counted towards the end: a whole second counts only where all of
/// it is left, and what has passed is counted in the same way.
pub proof fn whole_seconds_are_left(nanos: int)
    ensures
        nanos >= 0 ==> whole_secs(nanos) * NANOS <= nanos < (whole_secs(nanos) + 1) * NANOS,
        nanos < 0 ==> whole_secs(nanos) == -whole_secs(-nanos),
{
}

/// Windows of one prefix have the same slug only where they begin together.
pub proof fn slugs_tell_windows_apart(prefix: Seq<char>, a: nat, b: nat)
    requires
        a <= i64::MAX,
        b <= i64::MAX,
        slug_of(prefix, a) == slug_of(prefix, b),
    ensures
        a == b,
{
    slug_reads_back(prefix, a);
    slug_reads_back(prefix, b);
}

/// A moment a second later is a thousand million nanoseconds later, and the
/// nanoseconds within a second add to it.
pub proof fn moments_are_counted_in_nanoseconds(m: Moment, later: Moment)
    ensures
        later.total() - m.total() == (later.secs - m.secs) * NANOS + (later.nanos - m.nanos),
        (Moment { secs: 0, nanos: 0 }).total() == 0,
{
    let (a, b) = (later.secs as int, m.secs as int);
    let n = NANOS as int;
    assert((a - b) * n == a * n - b * n) by (nonlinear_arith);
}

} // verus!
