//! Points in time, whichever clock they are read from.
//!
//! A deadline is kept the same way on every clock: add a duration to a point in time, ask
//! how long it is since another, ask whether it has come. What differs is how fine a clock
//! is and where its time ends. [`Instant`] is a point in virtual time, in whole
//! microseconds; [`Steady`] is a point on the machine's steady clock, to the nanosecond.

use core::time::Duration;
use vstd::prelude::*;

use crate::clock::{later, Instant};
use crate::duration::{longest, nanos};

verus! {

/// How long after `earlier` the time `ns` is; nothing where it is not after it.
pub open spec fn elapsed(ns: int, earlier: int) -> int {
    if ns >= earlier { ns - earlier } else { 0 }
}

/// A point in time on some clock.
pub trait Moment: Copy {
    /// Nanoseconds since the clock's epoch.
    spec fn ns(self) -> int;

    /// Nanoseconds since the epoch of the point `d` later.
    spec fn after(self, d: Duration) -> int;

    /// The point `d` later.
    fn plus(self, d: Duration) -> (t: Self)
        ensures
            t.ns() == self.after(d),
    ;

    /// The time from `earlier` to here, or nothing if `earlier` is the later one.
    fn since(self, earlier: Self) -> (d: Duration)
        ensures
            nanos(d) == elapsed(self.ns(), earlier.ns()),
    ;

    /// Whether `deadline` has come.
    fn reached(self, deadline: Self) -> (come: bool)
        ensures
            come <==> self.ns() >= deadline.ns(),
    ;
}

impl Moment for Instant {
    open spec fn ns(self) -> int {
        self@ * 1000
    }

    /// Virtual time counts whole microseconds.
    open spec fn after(self, d: Duration) -> int {
        later(self@, d) * 1000
    }

    fn plus(self, d: Duration) -> (t: Self) {
        self + d
    }

    fn since(self, earlier: Self) -> (d: Duration) {
        self.duration_since(earlier)
    }

    fn reached(self, deadline: Self) -> (come: bool) {
        self.as_micros() >= deadline.as_micros()
    }
}

/// A point on the machine's steady clock, as the time since an arbitrary epoch.
#[derive(Clone, Copy, Debug)]
pub struct Steady {
    since_epoch: Duration,
}

impl View for Steady {
    type V = int;

    /// Nanoseconds since the epoch.
    closed spec fn view(&self) -> int {
        nanos(self.since_epoch) as int
    }
}

impl Steady {
    /// The point `since_epoch` after the epoch.
    pub fn at(since_epoch: Duration) -> (t: Self)
        ensures
            t@ == nanos(since_epoch),
    {
        Steady { since_epoch }
    }

    /// The time since the epoch.
    pub fn since_epoch(self) -> (d: Duration)
        ensures
            nanos(d) == self@,
    {
        self.since_epoch
    }
}

impl Moment for Steady {
    open spec fn ns(self) -> int {
        self@
    }

    /// Exact, up to the last point there is.
    open spec fn after(self, d: Duration) -> int {
        if self@ + nanos(d) <= longest() {
            self@ + nanos(d)
        } else {
            longest() as int
        }
    }

    fn plus(self, d: Duration) -> (t: Self) {
        Steady { since_epoch: self.since_epoch.saturating_add(d) }
    }

    fn since(self, earlier: Self) -> (d: Duration) {
        self.since_epoch.saturating_sub(earlier.since_epoch)
    }

    fn reached(self, deadline: Self) -> (come: bool) {
        self.since_epoch.as_nanos() >= deadline.since_epoch.as_nanos()
    }
}

// ---- laws ----

/// Time elapsed is how far a point lies behind another, and nothing where it lies before it.
pub proof fn law_elapsed_is_the_distance(ns: int, earlier: int)
    ensures
        ns >= earlier ==> elapsed(ns, earlier) == ns - earlier,
        ns <= earlier ==> elapsed(ns, earlier) == 0,
{
}

/// Both clocks count from their epoch: virtual time in thousands of nanoseconds, the steady
/// clock in single ones.
pub proof fn law_points_count_from_their_epoch(t: Instant, s: Steady)
    ensures
        t.ns() == t@ * 1000,
        s.ns() == s@,
{
}

/// In virtual time a deadline beyond the last instant falls on the last instant, and a
/// duration of more microseconds than a word counts is taken for what is over.
pub proof fn law_virtual_deadlines_stop_at_the_last_instant(from: Instant, d: Duration)
    requires
        from@ >= 0,
    ensures
        ({
            let us = (nanos(d) as int / 1000) % 0x1_0000_0000_0000_0000int;
            &&& from@ + us <= u64::MAX ==> from.after(d) == (from@ + us) * 1000
            &&& from@ + us > u64::MAX ==> from.after(d) == u64::MAX * 1000
        }),
{
}

/// A longer wait never ends sooner, on either clock, for waits that a word of microseconds
/// counts.
pub proof fn law_a_longer_wait_never_ends_sooner(
    v: Instant,
    s: Steady,
    short: Duration,
    long: Duration,
)
    requires
        v@ >= 0,
        nanos(short) <= nanos(long),
        nanos(long) / 1000 <= u64::MAX,
    ensures
        v.after(short) <= v.after(long),
        s.after(short) <= s.after(long),
        v.ns() <= v.after(short) || v.after(short) == u64::MAX * 1000,
{
    let a = nanos(short) / 1000;
    let b = nanos(long) / 1000;
    assert(a <= b) by (nonlinear_arith)
        requires
            a == nanos(short) / 1000,
            b == nanos(long) / 1000,
            nanos(short) <= nanos(long),
    ;
    vstd::arithmetic::div_mod::lemma_small_mod(a, 0x1_0000_0000_0000_0000);
    vstd::arithmetic::div_mod::lemma_small_mod(b, 0x1_0000_0000_0000_0000);
}

/// Waiting out a duration takes that duration: at a point reached by it, at least that much
/// time has passed, unless time ended first.
pub proof fn law_a_duration_waited_out_has_passed<T: Moment>(from: T, d: Duration, now: T)
    requires
        from.after(d) == from.ns() + nanos(d),
        now.ns() >= from.after(d),
    ensures
        elapsed(now.ns(), from.ns()) >= nanos(d),
{
}

/// On the steady clock a deadline falls on the nanosecond, as long as it falls before time
/// ends.
pub proof fn law_steady_deadlines_are_exact(from: Steady, d: Duration)
    ensures
        from.ns() + nanos(d) <= longest() ==> from.after(d) == from.ns() + nanos(d),
        from.ns() + nanos(d) > longest() ==> from.after(d) == longest(),
{
}

/// In virtual time a deadline falls on the microsecond that a duration has begun, never
/// later than the duration asks and less than a microsecond earlier, as long as it falls
/// before time ends.
pub proof fn law_virtual_deadlines_are_whole_microseconds(from: Instant, d: Duration)
    requires
        from@ + nanos(d) / 1000 <= u64::MAX,
        from@ >= 0,
    ensures
        from.after(d) <= from.ns() + nanos(d) < from.after(d) + 1000,
        nanos(d) % 1000 == 0 ==> from.after(d) == from.ns() + nanos(d),
{
    let us = nanos(d) / 1000;
    assert(us % 0x1_0000_0000_0000_0000 == us) by (nonlinear_arith)
        requires
            us < 0x1_0000_0000_0000_0000,
    ;
}

} // verus!
