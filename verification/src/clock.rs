//! Virtual time: a discrete-event clock and the sleepers parked on it.
//!
//! A simulation owns a [`Clock`], a current time plus the timer queue of parked sleepers,
//! advances it, and fires the due sleepers. Two simulations own two clocks; nothing they
//! do can move each other's time.
//!
//! Code that has no clock at hand resolves one through a [`Scope`]: the driver enters its
//! clock for the length of a pump, and [`sleep`] and [`Instant::now`] read the innermost
//! clock entered. A sleep stays with the clock that made it.

use core::ops::{Add, AddAssign};
use core::task::Waker;
use core::time::Duration;
use std::collections::HashMap;
use vstd::prelude::*;

use crate::duration::micros_word;

verus! {

/// A task's waker, as an opaque value.
#[verifier::external_type_specification]
#[verifier::external_body]
pub struct ExWaker(core::task::Waker);

/// A point in virtual time, in microseconds since an arbitrary epoch.
#[derive(Clone, Copy, PartialEq, Eq, PartialOrd, Ord, Debug, Structural)]
pub struct Instant {
    us: u64,
}

impl View for Instant {
    type V = int;

    /// Microseconds since the epoch.
    closed spec fn view(&self) -> int {
        self.us as int
    }
}

/// The instant `us` microseconds, or the last one where that lies beyond it.
pub open spec fn no_later_than_last(us: int) -> int {
    if us <= u64::MAX { us } else { u64::MAX as int }
}

/// Where `d` after `us` falls: the microsecond count of `d` is taken as a 64-bit count,
/// and time stops at the last instant.
pub open spec fn later(us: int, d: Duration) -> int {
    no_later_than_last(us + crate::duration::micros(d) % crate::duration::word())
}

/// How long after `earlier` the time `us` is; nothing where it is not after it.
pub open spec fn span(us: int, earlier: int) -> int {
    if us >= earlier { us - earlier } else { 0 }
}

impl Default for Instant {
    fn default() -> (t: Self)
        ensures
            t@ == 0,
    {
        Instant { us: 0 }
    }
}

impl Instant {
    /// The current time on the innermost clock of `scope`.
    pub fn now(scope: &Scope<Clock>) -> (t: Self)
        requires
            scope@.len() > 0,
        ensures
            t@ == scope@.last()@.now,
    {
        scope.innermost().now()
    }

    pub fn from_micros(us: u64) -> (t: Self)
        ensures
            t@ == us,
    {
        Instant { us }
    }

    pub fn as_micros(self) -> (us: u64)
        ensures
            us == self@,
    {
        self.us
    }

    /// How long ago this instant was, on the innermost clock of `scope`.
    pub fn elapsed(self, scope: &Scope<Clock>) -> (d: Duration)
        requires
            scope@.len() > 0,
        ensures
            crate::duration::nanos(d) == span(scope@.last()@.now, self@) * 1000,
    {
        Instant::now(scope).duration_since(self)
    }

    /// The time from `earlier` to here, or nothing if `earlier` is the later one.
    pub fn duration_since(self, earlier: Instant) -> (d: Duration)
        ensures
            crate::duration::nanos(d) == span(self@, earlier@) * 1000,
    {
        Duration::from_micros(self.us.saturating_sub(earlier.us))
    }

    /// Instants with the same microsecond count are the same.
    pub proof fn lemma_same(self, other: Instant)
        requires
            self@ == other@,
        ensures
            self == other,
    {
    }
}

impl Add<Duration> for Instant {
    type Output = Instant;

    fn add(self, d: Duration) -> (t: Instant)
        ensures
            t@ == later(self@, d),
    {
        Instant { us: self.us.saturating_add(micros_word(d)) }
    }
}

impl vstd::std_specs::ops::AddSpecImpl<Duration> for Instant {
    open spec fn obeys_add_spec() -> bool {
        true
    }

    open spec fn add_req(self, d: Duration) -> bool {
        true
    }

    closed spec fn add_spec(self, d: Duration) -> Instant {
        Instant { us: later(self.us as int, d) as u64 }
    }
}

impl AddAssign<Duration> for Instant {
    fn add_assign(&mut self, d: Duration)
        ensures
            final(self)@ == later(old(self)@, d),
    {
        *self = *self + d;
    }
}

// ---- the clock ----

/// A sleeper waiting on a clock: when it is due and whom to wake.
pub struct Sleeper {
    pub deadline: int,
    pub waker: Waker,
}

/// What a clock is: which one, the time it shows, the number its next sleeper will get, and
/// the sleepers armed on it, by number.
#[verifier::ext_equal]
pub struct Timeline {
    /// What a sleep and the clock that made it have in common. A clock keeps it for life.
    /// Nothing tells whether that of two clocks is the same, so a sleep can be shown to
    /// belong to the clock that made it and to no other.
    pub id: int,
    pub now: int,
    pub next: int,
    pub armed: Map<u64, Sleeper>,
}

impl Timeline {
    /// The timeline after a move to `t`: time never runs backwards.
    pub open spec fn advanced(self, t: int) -> Timeline {
        Timeline { now: if t > self.now { t } else { self.now }, ..self }
    }

    /// The timeline without sleeper `k`.
    pub open spec fn disarmed(self, k: u64) -> Timeline {
        Timeline { armed: self.armed.remove(k), ..self }
    }

    /// The timeline with sleeper `k` armed, replacing what was armed under `k`.
    pub open spec fn rearmed(self, k: u64, sleeper: Sleeper) -> Timeline {
        Timeline { armed: self.armed.insert(k, sleeper), ..self }
    }

    /// The timeline with a new sleeper armed under the next number.
    pub open spec fn armed_next(self, sleeper: Sleeper) -> Timeline {
        Timeline {
            next: self.next + 1,
            armed: self.armed.insert(self.next as u64, sleeper),
            ..self
        }
    }

    /// Sleeper `k` is armed and its deadline has arrived.
    pub open spec fn due(self, k: u64) -> bool {
        self.armed.contains_key(k) && self.armed[k].deadline <= self.now
    }

    /// The timeline once every due sleeper has been taken off.
    pub open spec fn fired(self) -> Timeline {
        Timeline {
            armed: self.armed.restrict(
                Set::new(|k: u64| self.armed.contains_key(k) && !self.due(k)),
            ),
            ..self
        }
    }

    /// `t` is the earliest armed deadline, and `None` stands for no sleeper at all.
    pub open spec fn earliest(self, t: Option<Instant>) -> bool {
        match t {
            Some(t) => {
                &&& exists|k: u64| self.armed.contains_key(k) && self.armed[k].deadline == t@
                &&& forall|k: u64|
                    #[trigger] self.armed.contains_key(k) ==> t@ <= self.armed[k].deadline
            },
            None => forall|k: u64| !self.armed.contains_key(k),
        }
    }

    /// Sleeper `a` fires before sleeper `b`: by deadline, and by number among equals.
    pub open spec fn before(self, a: u64, b: u64) -> bool {
        ||| self.armed[a].deadline < self.armed[b].deadline
        ||| self.armed[a].deadline == self.armed[b].deadline && a < b
    }

    /// `ids` lists the due sleepers, each once, in the order in which they fire.
    pub open spec fn firing_order(self, ids: Seq<u64>) -> bool {
        &&& forall|k: u64| self.due(k) <==> ids.contains(k)
        &&& forall|i: int, j: int| 0 <= i < j < ids.len() ==> self.before(ids[i], ids[j])
    }
}

/// The wakers of the sleepers `ids`, in that order.
pub open spec fn wakers_of(armed: Map<u64, Sleeper>, ids: Seq<u64>) -> Seq<Waker> {
    Seq::new(ids.len(), |i: int| armed[ids[i]].waker)
}

/// `(deadline, number)` of `a` fires after that of `b`.
spec fn fires_after(a: (u64, u64), b: (u64, u64)) -> bool {
    a.0 > b.0 || (a.0 == b.0 && a.1 > b.1)
}

/// Sleeper `k` has a hint at `from` or behind it.
spec fn hinted_from(hints: Seq<(u64, u64)>, from: int, k: u64) -> bool {
    exists|i: int| from <= i < hints.len() && (#[trigger] hints[i]).1 == k
}

/// The deadline noted for sleeper `k`.
spec fn noted(hints: Seq<(u64, u64)>, k: u64) -> u64 {
    let i = choose|i: int| 0 <= i < hints.len() && hints[i].1 == k;
    hints[i].0
}

/// A discrete-event virtual clock.
///
/// The owner drives it: run the tasks until idle, hop to [`Clock::next_deadline`] with
/// [`Clock::advance_to`], [`Clock::fire_due`], repeat. Parked sleepers cannot observe time
/// on their own, so whoever advances the clock must fire after each advance.
pub struct Clock {
    id: Ghost<int>,
    now_us: u64,
    /// The number of the next sleeper. Registration order breaks deadline ties, so equal
    /// deadlines fire first come, first served.
    seq: u64,
    /// `(deadline, number)` pairs, the one that fires next at the end. Entries are deleted
    /// lazily: `wakers` is the truth, this is a hint.
    hints: Vec<(u64, u64)>,
    wakers: HashMap<u64, Waker>,
}

impl View for Clock {
    type V = Timeline;

    closed spec fn view(&self) -> Timeline {
        Timeline {
            id: self.id@,
            now: self.now_us as int,
            next: self.seq as int,
            armed: Map::new(
                |k: u64| self.wakers@.contains_key(k),
                |k: u64| Sleeper {
                    deadline: noted(self.hints@, k) as int,
                    waker: self.wakers@[k],
                },
            ),
        }
    }
}

impl Clock {
    /// The hints are in firing order, one for each number, and every waker has its hint.
    pub closed spec fn wf(self) -> bool {
        &&& forall|i: int, j: int|
            0 <= i < j < self.hints@.len() ==> fires_after(self.hints@[i], self.hints@[j])
        &&& forall|i: int, j: int|
            0 <= i < j < self.hints@.len() ==> self.hints@[i].1 != self.hints@[j].1
        &&& forall|i: int| 0 <= i < self.hints@.len() ==> (#[trigger] self.hints@[i]).1 < self.seq
        &&& forall|k: u64| #[trigger]
            self.wakers@.contains_key(k) ==> hinted_from(self.hints@, 0, k)
    }

    /// Sleepers are numbered as they register: every number armed was given out, and the
    /// next one is free.
    pub proof fn law_armed_numbers_were_given_out(self)
        requires
            self.wf(),
        ensures
            0 <= self@.now <= u64::MAX,
            0 <= self@.next <= u64::MAX,
            forall|k: u64| self@.armed.contains_key(k) ==> k < self@.next,
    {
        assert forall|k: u64| self@.armed.contains_key(k) implies k < self@.next by {
            assert(self.wakers@.contains_key(k));
        }
    }

    proof fn lemma_noted(self, i: int)
        requires
            self.wf(),
            0 <= i < self.hints@.len(),
        ensures
            noted(self.hints@, self.hints@[i].1) == self.hints@[i].0,
    {
        let k = self.hints@[i].1;
        let j = choose|j: int| 0 <= j < self.hints@.len() && self.hints@[j].1 == k;
        assert(0 <= j < self.hints@.len() && self.hints@[j].1 == k);
        assert(i == j);
    }

    pub fn new() -> (c: Self)
        ensures
            c.wf(),
            c@.now == 0,
            c@.next == 0,
            c@.armed == Map::<u64, Sleeper>::empty(),
    {
        broadcast use vstd::std_specs::hash::group_hash_axioms;

        let c = Clock {
            id: Ghost(arbitrary()),
            now_us: 0,
            seq: 0,
            hints: Vec::new(),
            wakers: HashMap::new(),
        };
        assert(c@.armed =~= Map::<u64, Sleeper>::empty());
        c
    }

    pub fn now(&self) -> (t: Instant)
        ensures
            t@ == self@.now,
    {
        Instant { us: self.now_us }
    }

    /// Advance to `t`. A target at or behind now leaves the clock where it stands, so a
    /// deadline that already passed fires in place.
    pub fn advance_to(&mut self, t: Instant)
        requires
            old(self).wf(),
        ensures
            final(self).wf(),
            final(self)@ == old(self)@.advanced(t@),
    {
        if t.us > self.now_us {
            self.now_us = t.us;
        }
        assert(self@.armed =~= old(self)@.armed);
    }

    /// The earliest deadline still armed, if any.
    pub fn next_deadline(&mut self) -> (t: Option<Instant>)
        requires
            old(self).wf(),
        ensures
            final(self).wf(),
            final(self)@ == old(self)@,
            old(self)@.earliest(t),
    {
        broadcast use vstd::std_specs::hash::group_hash_axioms;

        while self.hints.len() > 0
            invariant
                self.wf(),
                self@ == old(self)@,
            decreases self.hints.len(),
        {
            let n: usize = self.hints.len();
            let (deadline, seq) = self.hints[n - 1];
            if self.wakers.contains_key(&seq) {
                proof {
                    self.lemma_noted(n - 1);
                    assert(self@.armed.contains_key(seq));
                    assert(self@.armed[seq].deadline == deadline);
                    assert forall|k: u64| #[trigger] self@.armed.contains_key(k) implies deadline
                        <= self@.armed[k].deadline by {
                        assert(self.wakers@.contains_key(k));
                        let i = choose|i: int|
                            0 <= i < self.hints@.len() && (#[trigger] self.hints@[i]).1 == k;
                        self.lemma_noted(i);
                        assert(i == n - 1 || fires_after(self.hints@[i], self.hints@[n - 1]));
                    }
                }
                return Some(Instant { us: deadline });
            }
            // The sleeper was cancelled: purge its stale hint.
            let ghost before = *self;
            let _ = self.hints.pop();
            proof {
                self.lemma_hint_dropped(before);
                assert(self@.armed =~= before@.armed);
            }
        }
        proof {
            assert forall|k: u64| !self@.armed.contains_key(k) by {
                if self.wakers@.contains_key(k) {
                    let i = choose|i: int|
                        0 <= i < self.hints@.len() && (#[trigger] self.hints@[i]).1 == k;
                }
            }
        }
        None
    }

    /// Dropping the last hint of a sleeper without a waker keeps everything else.
    proof fn lemma_hint_dropped(self, before: Clock)
        requires
            before.wf(),
            before.hints@.len() > 0,
            self.hints@ == before.hints@.drop_last(),
            self.now_us == before.now_us,
            self.seq == before.seq,
            forall|k: u64| #[trigger]
                self.wakers@.contains_key(k) <==> before.wakers@.contains_key(k) && k
                    != before.hints@.last().1,
        ensures
            self.wf(),
            forall|k: u64|
                self.wakers@.contains_key(k) ==> #[trigger] noted(self.hints@, k) == noted(
                    before.hints@,
                    k,
                ),
    {
        let n = before.hints@.len() - 1;
        assert forall|k: u64| #[trigger] self.wakers@.contains_key(k) implies hinted_from(
            self.hints@,
            0,
            k,
        ) by {
            assert(before.wakers@.contains_key(k));
            let i = choose|i: int|
                0 <= i < before.hints@.len() && (#[trigger] before.hints@[i]).1 == k;
            assert(i != n);
            assert(self.hints@[i].1 == k);
        }
        assert forall|k: u64| self.wakers@.contains_key(k) implies #[trigger] noted(self.hints@, k)
            == noted(before.hints@, k) by {
            let i = choose|i: int| 0 <= i < self.hints@.len() && (#[trigger] self.hints@[i]).1 == k;
            self.lemma_noted(i);
            assert(before.hints@[i] == self.hints@[i]);
            before.lemma_noted(i);
        }
    }

    /// Take off every sleeper whose deadline has arrived and return its waker, in firing
    /// order. Call after each advance, and wake what is returned.
    pub fn fire_due(&mut self) -> (due: Vec<Waker>)
        requires
            old(self).wf(),
        ensures
            final(self).wf(),
            final(self)@ == old(self)@.fired(),
            exists|ids: Seq<u64>| #[trigger]
                old(self)@.firing_order(ids) && due@ == wakers_of(old(self)@.armed, ids),
    {
        broadcast use vstd::std_specs::hash::group_hash_axioms;

        let ghost start = *self;
        let ghost mut ids: Seq<u64> = Seq::empty();
        let mut due: Vec<Waker> = Vec::new();
        while self.hints.len() > 0 && self.hints[self.hints.len() - 1].0 <= self.now_us
            invariant
                start.wf(),
                self.wf(),
                self.id == start.id,
                self.now_us == start.now_us,
                self.seq == start.seq,
                self.hints@.len() <= start.hints@.len(),
                self.hints@ == start.hints@.take(self.hints@.len() as int),
                forall|i: int|
                    self.hints@.len() <= i < start.hints@.len() ==> (#[trigger] start.hints@[i]).0
                        <= start.now_us,
                forall|k: u64|
                    self.wakers@.contains_key(k) ==> #[trigger] start.wakers@.contains_key(k)
                        && self.wakers@[k] == start.wakers@[k],
                forall|i: int|
                    0 <= i < self.hints@.len() && start.wakers@.contains_key(
                        (#[trigger] start.hints@[i]).1,
                    ) ==> self.wakers@.contains_key(start.hints@[i].1),
                forall|i: int|
                    self.hints@.len() <= i < start.hints@.len() ==> {
                        let k = (#[trigger] start.hints@[i]).1;
                        !self.wakers@.contains_key(k) && (start.wakers@.contains_key(k)
                            ==> ids.contains(k))
                    },
                forall|j: int|
                    0 <= j < ids.len() ==> start.wakers@.contains_key(#[trigger] ids[j])
                        && hinted_from(start.hints@, self.hints@.len() as int, ids[j]),
                forall|i: int, j: int| 0 <= i < j < ids.len() ==> start@.before(ids[i], ids[j]),
                due@ == wakers_of(start@.armed, ids),
            decreases self.hints.len(),
        {
            let ghost before = *self;
            let ghost n = self.hints@.len() - 1;
            let ghost old_ids = ids;
            let ghost hint = self.hints@.last();
            assert(hint == start.hints@[n]);
            let popped = self.hints.pop();
            if let Some((_, seq)) = popped {
                assert(seq == hint.1);
                let woken = self.wakers.remove(&seq);
                proof {
                    self.lemma_hint_dropped(before);
                }
                if let Some(waker) = woken {
                    due.push(waker);
                    proof {
                        ids = ids.push(seq);
                        assert(start.wakers@.contains_key(seq));
                        start.lemma_noted(n);
                        assert forall|i: int, j: int| 0 <= i < j < ids.len() implies start@.before(
                            ids[i],
                            ids[j],
                        ) by {
                            if j == old_ids.len() {
                                assert(hinted_from(start.hints@, n + 1, old_ids[i]));
                                let m = choose|m: int|
                                    n + 1 <= m < start.hints@.len() && (#[trigger] start.hints@[m]).1
                                        == old_ids[i];
                                start.lemma_noted(m);
                                assert(fires_after(start.hints@[n], start.hints@[m]));
                            }
                        }
                        assert(due@ =~= wakers_of(start@.armed, ids));
                        assert forall|j: int| 0 <= j < ids.len() implies start.wakers@.contains_key(
                            #[trigger] ids[j],
                        ) && hinted_from(start.hints@, n, ids[j]) by {
                            if j < old_ids.len() {
                                assert(ids[j] == old_ids[j]);
                                assert(hinted_from(start.hints@, n + 1, old_ids[j]));
                            } else {
                                assert(start.hints@[n].1 == ids[j]);
                            }
                        }
                        assert(ids[old_ids.len() as int] == seq);
                        assert forall|k: u64| old_ids.contains(k) implies ids.contains(k) by {
                            let j = choose|j: int| 0 <= j < old_ids.len() && old_ids[j] == k;
                            assert(ids[j] == k);
                        }
                    }
                }
                assert(self.hints@ =~= start.hints@.take(n));
            }
        }
        proof {
            assert forall|i: int| 0 <= i < self.hints@.len() implies (#[trigger] self.hints@[i]).0
                > self.now_us by {
                let n = self.hints@.len() - 1;
                assert(i == n || fires_after(self.hints@[i], self.hints@[n]));
            }
            assert(self@.armed =~= start@.fired().armed) by {
                assert forall|k: u64|
                    self@.armed.contains_key(k) <==> start@.fired().armed.contains_key(k) by {
                    if start.wakers@.contains_key(k) {
                        let i = choose|i: int|
                            0 <= i < start.hints@.len() && (#[trigger] start.hints@[i]).1 == k;
                        start.lemma_noted(i);
                        if i < self.hints@.len() {
                            assert(self.hints@[i] == start.hints@[i]);
                        }
                    }
                }
                assert forall|k: u64| self@.armed.contains_key(k) implies self@.armed[k]
                    == start@.fired().armed[k] by {
                    assert(start.wakers@.contains_key(k));
                    let i = choose|i: int|
                        0 <= i < self.hints@.len() && (#[trigger] self.hints@[i]).1 == k;
                    self.lemma_noted(i);
                    assert(self.hints@[i] == start.hints@[i]);
                    start.lemma_noted(i);
                }
            }
            assert forall|k: u64| start@.due(k) <==> ids.contains(k) by {
                if start@.due(k) {
                    let i = choose|i: int|
                        0 <= i < start.hints@.len() && (#[trigger] start.hints@[i]).1 == k;
                    start.lemma_noted(i);
                    if i < self.hints@.len() {
                        assert(self.hints@[i] == start.hints@[i]);
                    }
                }
                if ids.contains(k) {
                    let j = choose|j: int| 0 <= j < ids.len() && ids[j] == k;
                    assert(hinted_from(start.hints@, self.hints@.len() as int, ids[j]));
                    let i = choose|i: int|
                        self.hints@.len() <= i < start.hints@.len() && (#[trigger] start.hints@[i]).1
                            == k;
                    start.lemma_noted(i);
                }
            }
            assert(start@.firing_order(ids));
        }
        due
    }

    /// A sleep of `duration` from now, on this clock.
    pub fn sleep(&self, duration: Duration) -> (s: Sleep)
        ensures
            s.home() == self@.id,
            s.due_at() == later(self@.now, duration),
            s.number() is None,
    {
        self.sleep_until(self.now() + duration)
    }

    /// A sleep until `deadline`, on this clock. It registers when it is first polled.
    pub fn sleep_until(&self, deadline: Instant) -> (s: Sleep)
        ensures
            s.home() == self@.id,
            s.due_at() == deadline@,
            s.number() is None,
    {
        Sleep { home: self.id, deadline, seq: None }
    }

    /// Put this clock in scope: until the guard is used to leave, [`sleep`] and
    /// [`Instant::now`] resolve to it.
    pub fn enter(self, scope: &mut Scope<Clock>) -> (guard: Entered)
        ensures
            final(scope)@ == old(scope)@.push(self),
    {
        scope.stack.push(self);
        Entered { _entered: () }
    }

    /// Register a sleeper under the next number.
    fn arm(&mut self, deadline: Instant, waker: Waker) -> (k: u64)
        requires
            old(self).wf(),
            old(self)@.next < u64::MAX,
        ensures
            final(self).wf(),
            k == old(self)@.next,
            final(self)@ == old(self)@.armed_next(Sleeper { deadline: deadline@, waker }),
    {
        broadcast use vstd::std_specs::hash::group_hash_axioms;

        let ghost before = *self;
        let k: u64 = self.seq;
        // The place behind every later deadline and in front of the equal ones.
        let mut lo: usize = 0;
        let mut hi: usize = self.hints.len();
        while lo < hi
            invariant
                *self == before,
                before.wf(),
                lo <= hi <= before.hints@.len(),
                forall|i: int| 0 <= i < lo ==> (#[trigger] before.hints@[i]).0 > deadline.us,
                forall|i: int|
                    hi <= i < before.hints@.len() ==> (#[trigger] before.hints@[i]).0
                        <= deadline.us,
            decreases hi - lo,
        {
            let mid: usize = lo + (hi - lo) / 2;
            if self.hints[mid].0 > deadline.us {
                proof {
                    assert forall|i: int| 0 <= i <= mid implies (#[trigger] before.hints@[i]).0
                        > deadline.us by {
                        assert(i == mid || fires_after(before.hints@[i], before.hints@[mid as int]));
                    }
                }
                lo = mid + 1;
            } else {
                proof {
                    assert forall|i: int| mid <= i < before.hints@.len() implies (
                    #[trigger] before.hints@[i]).0 <= deadline.us by {
                        assert(i == mid || fires_after(before.hints@[mid as int], before.hints@[i]));
                    }
                }
                hi = mid;
            }
        }
        self.hints.insert(lo, (deadline.us, k));
        self.seq = k + 1;
        self.wakers.insert(k, waker);
        proof {
            let p = lo as int;
            assert forall|i: int, j: int| 0 <= i < j < self.hints@.len() implies fires_after(
                self.hints@[i],
                self.hints@[j],
            ) && self.hints@[i].1 != self.hints@[j].1 by {
                if j < p {
                    assert(fires_after(before.hints@[i], before.hints@[j]));
                } else if j == p {
                    assert(self.hints@[i] == before.hints@[i]);
                } else if i == p {
                    assert(self.hints@[j] == before.hints@[j - 1]);
                } else if i < p {
                    assert(fires_after(before.hints@[i], before.hints@[j - 1]));
                } else {
                    assert(fires_after(before.hints@[i - 1], before.hints@[j - 1]));
                }
            }
            assert forall|i: int| 0 <= i < self.hints@.len() implies (#[trigger] self.hints@[i]).1
                < self.seq by {
                if i < p {
                    assert(self.hints@[i] == before.hints@[i]);
                } else if i > p {
                    assert(self.hints@[i] == before.hints@[i - 1]);
                }
            }
            assert forall|q: u64| #[trigger] self.wakers@.contains_key(q) implies hinted_from(
                self.hints@,
                0,
                q,
            ) by {
                if q == k {
                    assert(self.hints@[p].1 == q);
                } else {
                    assert(before.wakers@.contains_key(q));
                    let i = choose|i: int|
                        0 <= i < before.hints@.len() && (#[trigger] before.hints@[i]).1 == q;
                    let m = if i < p { i } else { i + 1 };
                    assert(self.hints@[m] == before.hints@[i]);
                }
            }
            assert(self.wf());
            assert(self@.armed =~= before@.armed_next(Sleeper { deadline: deadline@, waker }).armed)
                by {
                assert forall|q: u64| self@.armed.contains_key(q) implies self@.armed[q]
                    == before@.armed_next(Sleeper { deadline: deadline@, waker }).armed[q] by {
                    if q == k {
                        self.lemma_noted(p);
                    } else {
                        assert(before.wakers@.contains_key(q));
                        let i = choose|i: int|
                            0 <= i < before.hints@.len() && (#[trigger] before.hints@[i]).1 == q;
                        let m = if i < p { i } else { i + 1 };
                        assert(self.hints@[m] == before.hints@[i]);
                        self.lemma_noted(m);
                        before.lemma_noted(i);
                    }
                }
            }
        }
        k
    }

    /// Give an armed sleeper a fresh waker.
    fn rearm(&mut self, k: u64, waker: Waker)
        requires
            old(self).wf(),
            old(self)@.armed.contains_key(k),
        ensures
            final(self).wf(),
            final(self)@ == old(self)@.rearmed(
                k,
                (Sleeper { deadline: old(self)@.armed[k].deadline, waker }),
            ),
    {
        broadcast use vstd::std_specs::hash::group_hash_axioms;

        self.wakers.insert(k, waker);
        proof {
            assert forall|q: u64| #[trigger] self.wakers@.contains_key(q) implies hinted_from(
                self.hints@,
                0,
                q,
            ) by {
                assert(old(self).wakers@.contains_key(q));
            }
            assert(self@.armed =~= old(self)@.rearmed(
                k,
                Sleeper { deadline: old(self)@.armed[k].deadline, waker },
            ).armed);
        }
    }

    /// Take a sleeper off; its hint is purged lazily.
    fn disarm(&mut self, k: u64)
        requires
            old(self).wf(),
        ensures
            final(self).wf(),
            final(self)@ == old(self)@.disarmed(k),
    {
        broadcast use vstd::std_specs::hash::group_hash_axioms;

        let _ = self.wakers.remove(&k);
        proof {
            assert forall|q: u64| #[trigger] self.wakers@.contains_key(q) implies hinted_from(
                self.hints@,
                0,
                q,
            ) by {
                assert(old(self).wakers@.contains_key(q));
            }
            assert(self@.armed =~= old(self)@.disarmed(k).armed);
        }
    }
}

impl Default for Clock {
    fn default() -> (c: Self)
        ensures
            c.wf(),
            c@.now == 0,
            c@.next == 0,
            c@.armed == Map::<u64, Sleeper>::empty(),
    {
        Clock::new()
    }
}

// ---- the scope ----

/// The clocks in scope, innermost last. `H` is a clock or a handle to one.
pub struct Scope<H> {
    stack: Vec<H>,
}

impl<H> View for Scope<H> {
    type V = Seq<H>;

    closed spec fn view(&self) -> Seq<H> {
        self.stack@
    }
}

impl<H> Scope<H> {
    pub fn new() -> (s: Self)
        ensures
            s@ == Seq::<H>::empty(),
    {
        Scope { stack: Vec::new() }
    }

    /// Enter a handle to a clock.
    pub fn enter(&mut self, handle: H) -> (guard: Entered)
        ensures
            final(self)@ == old(self)@.push(handle),
    {
        self.stack.push(handle);
        Entered { _entered: () }
    }

    /// Whether no clock is in scope.
    pub fn is_empty(&self) -> (empty: bool)
        ensures
            empty <==> self@.len() == 0,
    {
        self.stack.len() == 0
    }

    /// The innermost clock entered. There must be one.
    pub fn innermost(&self) -> (h: &H)
        requires
            self@.len() > 0,
        ensures
            *h == self@.last(),
    {
        &self.stack[self.stack.len() - 1]
    }
}

/// Scope guard from [`Clock::enter`]; leaving restores the outer clock.
pub struct Entered {
    _entered: (),
}

impl Entered {
    /// Leave the innermost scope and hand its clock back.
    pub fn leave<H>(self, scope: &mut Scope<H>) -> (left: Option<H>)
        ensures
            old(scope)@.len() == 0 ==> left is None && final(scope)@ == old(scope)@,
            old(scope)@.len() > 0 ==> left == Some(old(scope)@.last()) && final(scope)@
                == old(scope)@.drop_last(),
    {
        scope.stack.pop()
    }
}

/// The clock in scope. There must be one.
pub fn current<H>(scope: &mut Scope<H>) -> (clock: &mut H)
    requires
        old(scope)@.len() > 0,
    ensures
        *clock == old(scope)@.last(),
        final(scope)@ == old(scope)@.update(old(scope)@.len() - 1, *final(clock)),
{
    let n: usize = scope.stack.len();
    &mut scope.stack[n - 1]
}

// ---- sleeping ----

/// A wait that completes once its clock reaches the deadline. Its clock is the one it was
/// made by, whatever is in scope when it is polled.
///
/// Polled early, it registers with the clock and parks; it is woken by whoever fires the
/// clock, never by polling the clock itself.
pub struct Sleep {
    home: Ghost<int>,
    deadline: Instant,
    seq: Option<u64>,
}

impl Sleep {
    /// The clock that made it.
    pub closed spec fn home(self) -> int {
        self.home@
    }

    /// When it is due.
    pub closed spec fn due_at(self) -> int {
        self.deadline@
    }

    /// The number it is registered under, if it is.
    pub closed spec fn number(self) -> Option<u64> {
        self.seq
    }

    /// This sleep belongs to the clock with timeline `t`: that clock made it, and where it
    /// has registered, it is still armed there under its own deadline, unless that deadline
    /// has come.
    pub open spec fn registered(self, t: Timeline) -> bool {
        &&& self.home() == t.id
        &&& self.number() matches Some(k) ==> {
            &&& k < t.next
            &&& t.armed.contains_key(k) ==> t.armed[k].deadline == self.due_at()
            &&& t.now < self.due_at() ==> t.armed.contains_key(k)
        }
    }

    /// Poll on the clock it belongs to: `true` once the deadline has come. Before that it
    /// arms itself, or refreshes its waker where it is armed already.
    pub fn poll(&mut self, clock: &mut Clock, waker: Waker) -> (ready: bool)
        requires
            old(clock).wf(),
            old(self).registered(old(clock)@),
            old(self).number() is None ==> old(clock)@.next < u64::MAX,
        ensures
            final(clock).wf(),
            final(self).home() == old(self).home(),
            final(self).due_at() == old(self).due_at(),
            final(self).registered(final(clock)@),
            ready <==> old(clock)@.now >= old(self).due_at(),
            ready ==> final(self).number() is None && final(clock)@ == match old(self).number() {
                Some(k) => old(clock)@.disarmed(k),
                None => old(clock)@,
            },
            !ready ==> match old(self).number() {
                Some(k) => {
                    &&& final(self).number() == Some(k)
                    &&& final(clock)@ == old(clock)@.rearmed(
                        k,
                        (Sleeper { deadline: old(self).due_at(), waker }),
                    )
                },
                None => {
                    &&& final(self).number() == Some(old(clock)@.next as u64)
                    &&& final(clock)@ == old(clock)@.armed_next(
                        (Sleeper { deadline: old(self).due_at(), waker }),
                    )
                },
            },
    {
        if clock.now_us >= self.deadline.us {
            self.cancel(clock);
            return true;
        }
        match self.seq {
            Some(k) => {
                clock.rearm(k, waker);
            },
            None => {
                let k: u64 = clock.arm(self.deadline, waker);
                self.seq = Some(k);
            },
        }
        false
    }

    /// Give the sleep up: it disarms where it was registered, on the clock that made it.
    pub fn cancel(&mut self, clock: &mut Clock)
        requires
            old(clock).wf(),
            old(self).home() == old(clock)@.id,
        ensures
            final(clock).wf(),
            final(self).home() == old(self).home(),
            final(self).due_at() == old(self).due_at(),
            final(self).number() is None,
            final(clock)@ == match old(self).number() {
                Some(k) => old(clock)@.disarmed(k),
                None => old(clock)@,
            },
    {
        if let Some(k) = self.seq.take() {
            clock.disarm(k);
        }
    }
}

/// Sleep on the clock in scope. There must be one.
pub fn sleep(scope: &Scope<Clock>, duration: Duration) -> (s: Sleep)
    requires
        scope@.len() > 0,
    ensures
        s.home() == scope@.last()@.id,
        s.due_at() == later(scope@.last()@.now, duration),
        s.number() is None,
{
    scope.innermost().sleep(duration)
}

/// Sleep until `deadline` on the clock in scope. There must be one.
pub fn sleep_until(scope: &Scope<Clock>, deadline: Instant) -> (s: Sleep)
    requires
        scope@.len() > 0,
    ensures
        s.home() == scope@.last()@.id,
        s.due_at() == deadline@,
        s.number() is None,
{
    scope.innermost().sleep_until(deadline)
}

// ---- laws ----

/// An advance moves the time to where it was asked for, or not at all where that lies behind,
/// and touches nothing else.
pub proof fn law_an_advance_moves_the_time_alone(t: Timeline, to: int)
    ensures
        to > t.now ==> t.advanced(to).now == to,
        to <= t.now ==> t.advanced(to) == t,
        t.advanced(to) == (Timeline { now: t.advanced(to).now, ..t }),
{
}

/// Arming gives out the next number and arms one sleeper under it; re-arming replaces the one
/// sleeper it names; disarming takes the one it names off. No other sleeper is touched, and
/// neither is the time.
pub proof fn law_arming_touches_one_sleeper(t: Timeline, k: u64, who: Sleeper, other: u64)
    ensures
        t.armed_next(who).now == t.now && t.armed_next(who).id == t.id,
        t.armed_next(who).next == t.next + 1,
        t.armed_next(who).armed.contains_key(t.next as u64) && t.armed_next(who).armed[t.next as u64]
            == who,
        other != t.next as u64 ==> (t.armed_next(who).armed.contains_key(other)
            <==> t.armed.contains_key(other)) && (t.armed.contains_key(other) ==> t.armed_next(
            who,
        ).armed[other] == t.armed[other]),
        t.rearmed(k, who).now == t.now && t.rearmed(k, who).id == t.id && t.rearmed(k, who).next
            == t.next,
        t.rearmed(k, who).armed.contains_key(k) && t.rearmed(k, who).armed[k] == who,
        other != k ==> (t.rearmed(k, who).armed.contains_key(other) <==> t.armed.contains_key(
            other,
        )) && (t.armed.contains_key(other) ==> t.rearmed(k, who).armed[other] == t.armed[other]),
        t.disarmed(k).now == t.now && t.disarmed(k).id == t.id && t.disarmed(k).next == t.next,
        !t.disarmed(k).armed.contains_key(k),
        other != k ==> (t.disarmed(k).armed.contains_key(other) <==> t.armed.contains_key(other))
            && (t.armed.contains_key(other) ==> t.disarmed(k).armed[other] == t.armed[other]),
{
}

/// Firing takes off exactly the sleepers whose deadline is not ahead, arms nobody, and leaves
/// the time and the numbers alone.
pub proof fn law_firing_takes_off_the_due_alone(t: Timeline, k: u64)
    ensures
        t.fired().now == t.now && t.fired().id == t.id && t.fired().next == t.next,
        t.fired().armed.contains_key(k) <==> t.armed.contains_key(k) && t.armed[k].deadline > t.now,
        t.fired().armed.contains_key(k) ==> t.fired().armed[k] == t.armed[k],
        t.due(k) <==> t.armed.contains_key(k) && t.armed[k].deadline <= t.now,
{
}

/// Sleepers fire by deadline, and by number among equal deadlines: each of the due is in the
/// firing order once, nobody else is, and of any two the one that is due earlier, or was
/// armed first among equals, comes first. Their wakers come out in that order.
pub proof fn law_sleepers_fire_by_deadline_then_number(t: Timeline, ids: Seq<u64>)
    requires
        t.firing_order(ids),
    ensures
        forall|k: u64|
            ids.contains(k) <==> t.armed.contains_key(k) && t.armed[k].deadline <= t.now,
        forall|i: int, j: int| #![trigger ids[i], ids[j]]
            0 <= i < j < ids.len() ==> t.armed[ids[i]].deadline < t.armed[ids[j]].deadline || (
            t.armed[ids[i]].deadline == t.armed[ids[j]].deadline && ids[i] < ids[j]),
        wakers_of(t.armed, ids).len() == ids.len(),
        forall|i: int|
            0 <= i < ids.len() ==> #[trigger] wakers_of(t.armed, ids)[i] == t.armed[ids[i]].waker,
{
    assert forall|k: u64|
        ids.contains(k) <==> t.armed.contains_key(k) && t.armed[k].deadline <= t.now by {
        assert(t.due(k) <==> ids.contains(k));
    }
    assert forall|i: int, j: int| #![trigger ids[i], ids[j]]
        0 <= i < j < ids.len() implies t.armed[ids[i]].deadline < t.armed[ids[j]].deadline || (
    t.armed[ids[i]].deadline == t.armed[ids[j]].deadline && ids[i] < ids[j]) by {
        assert(t.before(ids[i], ids[j]));
    }
}

/// The next event is the earliest deadline that anybody is armed for, and there is none
/// exactly where nobody is armed.
pub proof fn law_the_next_event_is_the_earliest_deadline(t: Timeline, next: Option<Instant>)
    requires
        t.earliest(next),
    ensures
        next is None <==> (forall|k: u64| !t.armed.contains_key(k)),
        next matches Some(e) ==> exists|k: u64| #[trigger]
            t.armed.contains_key(k) && t.armed[k].deadline == e@,
        next matches Some(e) ==> forall|k: u64| #[trigger]
            t.armed.contains_key(k) ==> t.armed[k].deadline >= e@,
{
    if let Some(e) = next {
        let k = choose|k: u64| t.armed.contains_key(k) && t.armed[k].deadline == e@;
        assert(t.armed.contains_key(k));
    }
}

/// A duration moves an instant by its whole microseconds, counted in a word, and no further
/// than the last instant; how long ago is the distance, and nothing for what is ahead.
pub proof fn law_instants_move_by_whole_microseconds(us: int, d: Duration, earlier: int)
    requires
        us >= 0,
    ensures
        ({
            let by = (crate::duration::nanos(d) as int / 1000) % 0x1_0000_0000_0000_0000int;
            &&& us + by <= u64::MAX ==> later(us, d) == us + by
            &&& us + by > u64::MAX ==> later(us, d) == u64::MAX
        }),
        us >= earlier ==> span(us, earlier) == us - earlier,
        us <= earlier ==> span(us, earlier) == 0,
{
}

/// A sleep is with its clock where that clock made it and, once it has registered, still has
/// it armed under its deadline until that has come.
pub proof fn law_a_registered_sleep_is_armed_until_it_is_due(s: Sleep, t: Timeline, k: u64)
    requires
        s.registered(t),
        s.number() == Some(k),
    ensures
        s.home() == t.id,
        k < t.next,
        t.now < s.due_at() ==> t.armed.contains_key(k),
        t.armed.contains_key(k) ==> t.armed[k].deadline == s.due_at(),
{
}

/// Time never runs backwards, and only the furthest target counts.
pub proof fn law_time_is_monotonic(t: Timeline, a: int, b: int)
    ensures
        t.advanced(a).now >= t.now,
        t.advanced(a).now >= a,
        t.advanced(a).advanced(b) == t.advanced(if a > b { a } else { b }),
        t.advanced(a).armed == t.armed,
{
}

/// Firing leaves nothing due, so firing again without an advance wakes nobody and changes
/// nothing, and what stays armed lies in the future.
pub proof fn law_firing_settles(t: Timeline, ids: Seq<u64>)
    requires
        t.fired().firing_order(ids),
    ensures
        ids == Seq::<u64>::empty(),
        t.fired().fired() == t.fired(),
        forall|k: u64|
            t.fired().armed.contains_key(k) ==> #[trigger] t.fired().armed[k].deadline > t.now,
{
    assert forall|k: u64| !t.fired().due(k) by {}
    if ids.len() > 0 {
        assert(ids.contains(ids[0]));
    }
    assert(ids =~= Seq::<u64>::empty());
    assert(t.fired().fired().armed =~= t.fired().armed);
}

/// Exactly the sleepers whose deadline has come are taken off: each armed sleeper is
/// either due and gone, or not due and still armed as it was.
pub proof fn law_exactly_the_due_fire(t: Timeline, k: u64)
    requires
        t.armed.contains_key(k),
    ensures
        t.fired().armed.contains_key(k) <==> t.now < t.armed[k].deadline,
        t.fired().armed.contains_key(k) ==> t.fired().armed[k] == t.armed[k],
{
}

/// A hop to the earliest deadline finds someone to wake, and where that deadline lay
/// ahead, everyone it wakes was due exactly then: no event is jumped over.
pub proof fn law_hop_reaches_the_next_event(t: Timeline, next: Instant)
    requires
        t.earliest(Some(next)),
    ensures
        exists|k: u64| t.advanced(next@).due(k),
        next@ > t.now ==> forall|k: u64| #[trigger]
            t.advanced(next@).due(k) ==> t.armed[k].deadline == next@,
{
    let k = choose|k: u64| t.armed.contains_key(k) && t.armed[k].deadline == next@;
    assert(t.advanced(next@).due(k));
    assert forall|k: u64| next@ > t.now && #[trigger] t.advanced(next@).due(k) implies
        t.armed[k].deadline == next@ by {
        assert(t.armed.contains_key(k));
    }
}

/// There is one firing order: the same sleepers fire in the same sequence in every run.
pub proof fn law_firing_order_is_unique(t: Timeline, a: Seq<u64>, b: Seq<u64>)
    requires
        t.firing_order(a),
        t.firing_order(b),
    ensures
        a == b,
{
    lemma_same_order(t, a, b);
}

proof fn lemma_same_order(t: Timeline, a: Seq<u64>, b: Seq<u64>)
    requires
        forall|k: u64| a.contains(k) <==> b.contains(k),
        forall|i: int, j: int| 0 <= i < j < a.len() ==> t.before(a[i], a[j]),
        forall|i: int, j: int| 0 <= i < j < b.len() ==> t.before(b[i], b[j]),
    ensures
        a == b,
    decreases a.len(),
{
    if a.len() == 0 {
        if b.len() > 0 {
            assert(b.contains(b[0]));
            assert(a.contains(b[0]));
        }
        assert(a =~= b);
    } else {
        assert(a.contains(a[0]));
        assert(b.contains(a[0]));
        let m = choose|m: int| 0 <= m < b.len() && b[m] == a[0];
        assert(b.contains(b[0]));
        assert(a.contains(b[0]));
        let n = choose|n: int| 0 <= n < a.len() && a[n] == b[0];
        if m > 0 {
            assert(t.before(b[0], b[m]));
            assert(n == 0 || t.before(a[0], a[n]));
            assert(false);
        }
        let a1 = a.drop_first();
        let b1 = b.drop_first();
        assert forall|k: u64| a1.contains(k) <==> b1.contains(k) by {
            if a1.contains(k) {
                let i = choose|i: int| 0 <= i < a1.len() && a1[i] == k;
                assert(a[i + 1] == k);
                assert(t.before(a[0], a[i + 1]));
                assert(b.contains(k));
                let j = choose|j: int| 0 <= j < b.len() && b[j] == k;
                assert(b1[j - 1] == k);
            }
            if b1.contains(k) {
                let i = choose|i: int| 0 <= i < b1.len() && b1[i] == k;
                assert(b[i + 1] == k);
                assert(t.before(b[0], b[i + 1]));
                assert(a.contains(k));
                let j = choose|j: int| 0 <= j < a.len() && a[j] == k;
                assert(a1[j - 1] == k);
            }
        }
        lemma_same_order(t, a1, b1);
        assert(a =~= seq![a[0]] + a1);
        assert(b =~= seq![b[0]] + b1);
    }
}

/// Equal deadlines fire first come, first served: of two sleepers due at the same time the
/// one that registered earlier has the smaller number and fires earlier.
pub proof fn law_ties_fire_in_order_of_registration(t: Timeline, ids: Seq<u64>, i: int, j: int)
    requires
        t.firing_order(ids),
        0 <= i < ids.len(),
        0 <= j < ids.len(),
        t.armed[ids[i]].deadline == t.armed[ids[j]].deadline,
        ids[i] < ids[j],
    ensures
        i < j,
{
    if j < i {
        assert(t.before(ids[j], ids[i]));
    }
}

/// Whatever happens to a clock, a sleep that belongs to it keeps belonging to it: an
/// advance, a firing, and the arming, re-arming and disarming of any other sleeper.
pub proof fn law_registration_survives(s: Sleep, t: Timeline, to: int, other: u64, who: Sleeper)
    requires
        s.registered(t),
        s.number() != Some(other),
        0 <= t.next < u64::MAX,
    ensures
        s.registered(t.advanced(to)),
        s.registered(t.fired()),
        s.registered(t.disarmed(other)),
        s.registered(t.rearmed(other, who)),
        s.registered(t.armed_next(who)),
{
}

/// What can happen to a clock.
pub enum Tick {
    Advance(int),
    Fire,
    Arm(Sleeper),
    Rearm(u64, Sleeper),
    Disarm(u64),
}

impl Timeline {
    /// The timeline after one thing happened to it.
    pub open spec fn after(self, tick: Tick) -> Timeline {
        match tick {
            Tick::Advance(to) => self.advanced(to),
            Tick::Fire => self.fired(),
            Tick::Arm(who) => self.armed_next(who),
            Tick::Rearm(k, who) => self.rearmed(k, who),
            Tick::Disarm(k) => self.disarmed(k),
        }
    }

    /// The timeline after a run of things happened to it.
    pub open spec fn after_all(self, ticks: Seq<Tick>) -> Timeline
        decreases ticks.len(),
    {
        if ticks.len() == 0 {
            self
        } else {
            self.after_all(ticks.drop_last()).after(ticks.last())
        }
    }
}

/// A sleep stays with the clock that made it, whatever happens to that clock.
pub proof fn law_a_sleep_stays_with_its_clock(s: Sleep, own: Timeline, ticks: Seq<Tick>)
    requires
        s.home() == own.id,
    ensures
        s.home() == own.after_all(ticks).id,
{
    lemma_identity_is_for_life(own, ticks);
}

proof fn lemma_identity_is_for_life(t: Timeline, ticks: Seq<Tick>)
    ensures
        t.after_all(ticks).id == t.id,
    decreases ticks.len(),
{
    if ticks.len() > 0 {
        lemma_identity_is_for_life(t, ticks.drop_last());
    }
}

/// A sleep that has not been polled yet may be polled at any time, whatever has happened to
/// its clock since it was made.
pub proof fn law_an_unpolled_sleep_can_wait(s: Sleep, own: Timeline, ticks: Seq<Tick>)
    requires
        s.home() == own.id,
        s.number() is None,
    ensures
        s.registered(own.after_all(ticks)),
{
    lemma_identity_is_for_life(own, ticks);
}

/// A cancelled sleep is never woken: its number is armed no more, so no firing lists it.
pub proof fn law_cancelled_sleepers_do_not_fire(t: Timeline, k: u64, to: int, ids: Seq<u64>)
    requires
        t.disarmed(k).advanced(to).firing_order(ids),
    ensures
        !ids.contains(k),
{
    assert(!t.disarmed(k).advanced(to).due(k));
}

/// A sleep that registered is woken at the first firing at or after its deadline, and not
/// before it.
pub proof fn law_sleepers_are_woken_on_time(s: Sleep, t: Timeline, k: u64, ids: Seq<u64>)
    requires
        s.number() == Some(k),
        t.armed.contains_key(k),
        s.registered(t),
        t.firing_order(ids),
    ensures
        ids.contains(k) <==> t.now >= s.due_at(),
{
    assert(t.due(k) <==> ids.contains(k));
}

/// Leaving a scope restores what was in scope before it was entered.
pub proof fn law_leaving_restores_the_outer_clock<H>(outer: Seq<H>, clock: H)
    ensures
        outer.push(clock).last() == clock,
        outer.push(clock).drop_last() == outer,
{
    assert(outer.push(clock).drop_last() =~= outer);
}

/// Within the range of instants, time added comes back as time elapsed.
pub proof fn law_elapsed_is_what_was_added(us: int, d: Duration)
    requires
        0 <= us,
        us + crate::duration::micros(d) <= u64::MAX,
    ensures
        span(later(us, d), us) == crate::duration::micros(d),
{
    assert(crate::duration::micros(d) % crate::duration::word() == crate::duration::micros(d)) by {
        vstd::arithmetic::div_mod::lemma_small_mod(
            crate::duration::micros(d),
            crate::duration::word(),
        );
    }
}

} // verus!
