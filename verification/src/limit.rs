//! A concurrency limit whose ceiling can change at runtime.
//!
//! The limit caps the number of requests in flight, and the cap can be raised or lowered
//! live. The hard part is lowering it while requests are in flight: a slot that a running
//! request holds cannot be clawed back. So lowering forgets free slots first and books the
//! shortfall as debt; each request that finishes then cancels a unit of debt instead of
//! freeing a slot, until live capacity has converged on the new ceiling. Raising the
//! ceiling cancels outstanding debt first and frees real slots after that.
//!
//! A caller that is told to wait keeps a place in line. A slot that comes free is set aside
//! for the first in line at once, so it is not free for anybody else.

use vstd::prelude::*;

use crate::debt::{
    law_a_permit_given_up_serves_the_next, law_capacity_goes_to_the_line_in_order,
    law_giving_up_a_place_keeps_the_order_of_the_others, law_places_are_kept, lemma_moved_on,
    lemma_moved_wf, DebtSemaphore, Pool, MAX_PERMITS,
};
use crate::ready::Readiness;

verus! {

/// A ceiling, the number of slots taken or set aside under it, the places in line, the
/// places that a slot is set aside for, and the number of the next place.
#[verifier::ext_equal]
pub struct Occupancy {
    pub limit: int,
    pub held: int,
    pub line: Seq<u64>,
    pub granted: Set<u64>,
    pub next: int,
}

impl Occupancy {
    /// A ceiling with nothing taken under it and nobody waiting.
    pub open spec fn fresh(limit: int) -> Occupancy {
        Occupancy::of(limit, Pool::of(limit))
    }

    /// A ceiling and the pool of slots under it: whatever separates the pool's balance from
    /// the ceiling is held.
    pub open spec fn of(limit: int, pool: Pool) -> Occupancy {
        Occupancy {
            limit,
            held: limit - pool.balance,
            line: pool.line,
            granted: pool.granted,
            next: pool.next,
        }
    }

    /// The pool of slots under the ceiling.
    pub open spec fn pool(self) -> Pool {
        Pool {
            balance: self.limit - self.held,
            line: self.line,
            granted: self.granted,
            next: self.next,
        }
    }

    /// Slots a new request could take: what the ceiling leaves over.
    pub open spec fn free(self) -> int {
        if self.limit > self.held { self.limit - self.held } else { 0 }
    }

    /// Slots held above the ceiling, to be swallowed as they come back.
    pub open spec fn owed(self) -> int {
        if self.held > self.limit { self.held - self.limit } else { 0 }
    }

    /// An occupancy that fits the counters, and whose line is in order.
    pub open spec fn fits(self) -> bool {
        &&& 0 <= self.limit <= usize::MAX
        &&& 0 <= self.held <= usize::MAX
        &&& self.pool().wf()
    }

    /// Place `t` is in line, or a slot is set aside for it.
    pub open spec fn has(self, t: u64) -> bool {
        self.pool().has(t)
    }

    /// Every place there is, but for `but`, is there in `after` too.
    pub open spec fn keeps_places(self, after: Occupancy, but: Option<u64>) -> bool {
        self.pool().keeps_places(after.pool(), but)
    }

    /// The same slots under another ceiling. Slots that this frees go to the line first.
    pub open spec fn with_limit(self, limit: int) -> Occupancy {
        Occupancy::of(limit, self.pool().moved(limit - self.limit))
    }

    /// How many of the line a ceiling has a slot for.
    pub open spec fn served_at(self, limit: int) -> int {
        (Pool { balance: limit - self.held, ..self.pool() }).wanted()
    }

    /// One slot given back: against the debt, to the first in line, or free.
    pub open spec fn returned(self) -> Occupancy {
        Occupancy::of(self.limit, self.pool().moved(1))
    }

    /// Someone asked for a slot, from place `place` or without one yet: they take it, or
    /// they wait in line.
    pub open spec fn asked(self, place: Option<u64>) -> Occupancy {
        Occupancy::of(self.limit, self.pool().asked(place))
    }

    /// Place `t` given up.
    pub open spec fn left(self, t: u64) -> Occupancy {
        Occupancy::of(self.limit, self.pool().left(t))
    }
}

/// The pool of slots and the ceiling it is steered toward.
pub struct State {
    /// Free permits are free slots; a running request holds one, handed back on completion.
    pub sem: DebtSemaphore,
    /// The current ceiling.
    pub limit: usize,
}

impl View for State {
    type V = Occupancy;

    open spec fn view(&self) -> Occupancy {
        Occupancy::of(self.limit as int, self.sem@)
    }
}

impl State {
    pub open spec fn wf(self) -> bool {
        self.sem.wf() && self@.fits()
    }

    pub fn new(limit: usize) -> (s: Self)
        requires
            limit <= MAX_PERMITS,
        ensures
            s.wf(),
            s@ == Occupancy::fresh(limit as int),
    {
        let s = State { sem: DebtSemaphore::new(limit), limit };
        proof {
            s.sem.law_permits_and_debt_exclude_each_other();
            assert(s@.pool() == s.sem@);
        }
        s
    }

    /// Move capacity toward `new`, one unit at a time, letting the pool reconcile each
    /// step against the slots in use.
    pub fn set_limit(&mut self, new: usize)
        requires
            old(self).wf(),
            old(self)@.with_limit(new as int).free() <= MAX_PERMITS,
        ensures
            final(self).wf(),
            final(self)@ == old(self)@.with_limit(new as int),
            old(self)@.keeps_places(final(self)@, None),
    {
        let ghost start = self.sem@;
        let ghost held = self@.held;
        let current: usize = self.limit;
        self.limit = new;
        proof {
            law_places_are_kept(start, new - current);
            lemma_retuned_fits(old(self)@, new as int);
            assert(old(self)@.pool() == start);
            assert(old(self)@.with_limit(new as int).pool() == start.moved(new - current));
            assert(start.line.skip(0) =~= start.line);
            assert(start.line.take(0).to_set() =~= Set::<u64>::empty());
            assert(start.granted.union(Set::empty()) =~= start.granted);
            assert(start.moved(0) == start);
        }
        if new > current {
            for i in 0..new - current
                invariant
                    self.sem.wf(),
                    self.limit == new,
                    new > current,
                    start.line.len() > 0 ==> start.balance <= 0,
                    start.balance == current - held,
                    held >= 0,
                    DebtSemaphore::fits(start.balance),
                    DebtSemaphore::fits(start.moved(new - current).balance),
                    self.sem@ == start.moved(i as int),
            {
                proof {
                    lemma_moved_on(start, i as int);
                }
                self.sem.release();
            }
        } else {
            for i in 0..current - new
                invariant
                    self.sem.wf(),
                    self.limit == new,
                    new <= current,
                    start.line.len() > 0 ==> start.balance <= 0,
                    start.balance == current - held,
                    0 <= held <= usize::MAX,
                    DebtSemaphore::fits(start.balance),
                    self.sem@ == start.moved(-i),
            {
                proof {
                    lemma_lowered_on(start, i as int);
                }
                self.sem.acquire();
            }
        }
        proof {
            assert(self@.pool() == self.sem@);
        }
    }
}

/// A ceiling can be moved to wherever it leaves no more slots free than a pool can hold.
pub proof fn lemma_retuned_fits(o: Occupancy, new: int)
    requires
        o.fits(),
        0 <= new <= usize::MAX,
        o.with_limit(new).free() <= MAX_PERMITS,
    ensures
        o.with_limit(new).fits(),
{
    lemma_moved_wf(o.pool(), new - o.limit);
    assert(o.with_limit(new).pool() == o.pool().moved(new - o.limit));
}

/// Moving capacity down one at a time comes to the same as moving it down at once.
proof fn lemma_lowered_on(p: Pool, n: int)
    requires
        p.line.len() > 0 ==> p.balance <= 0,
        n >= 0,
    ensures
        p.moved(-n).moved(-1) == p.moved(-n - 1),
        p.moved(-n).balance == p.balance - n,
{
    lemma_lowered(p, n);
    lemma_lowered(p, n + 1);
    lemma_lowered(Pool { balance: p.balance - n, ..p }, 1);
}

proof fn lemma_lowered(p: Pool, n: int)
    requires
        p.line.len() > 0 ==> p.balance <= 0,
        n >= 0,
    ensures
        p.moved(-n) == (Pool { balance: p.balance - n, ..p }),
{
    assert(p.line.skip(0) =~= p.line);
    assert(p.line.take(0).to_set() =~= Set::<u64>::empty());
    assert(p.granted.union(Set::empty()) =~= p.granted);
}

/// A live concurrency limit.
pub struct ConcurrencyLimit {
    state: State,
}

impl View for ConcurrencyLimit {
    type V = Occupancy;

    closed spec fn view(&self) -> Occupancy {
        self.state@
    }
}

/// What asking for a slot came to.
pub enum Turn {
    /// A slot was taken.
    Taken(Slot),
    /// Wait at this place, and ask from it again.
    Wait(u64),
}

impl ConcurrencyLimit {
    pub closed spec fn wf(self) -> bool {
        self.state.wf()
    }

    /// Every well-formed limit has an occupancy that fits.
    pub proof fn lemma_wf_fits(self)
        requires
            self.wf(),
        ensures
            self@.fits(),
    {
    }

    pub fn new(limit: usize) -> (l: Self)
        requires
            limit <= MAX_PERMITS,
        ensures
            l.wf(),
            l@ == Occupancy::fresh(limit as int),
    {
        ConcurrencyLimit { state: State::new(limit) }
    }

    /// Set the ceiling. Increases free slots immediately; decreases take effect as
    /// requests in flight finish.
    pub fn set(&mut self, limit: usize)
        requires
            old(self).wf(),
            old(self)@.with_limit(limit as int).free() <= MAX_PERMITS,
        ensures
            final(self).wf(),
            final(self)@ == old(self)@.with_limit(limit as int),
            old(self)@.keeps_places(final(self)@, None),
    {
        self.state.set_limit(limit);
    }

    /// The current ceiling.
    pub fn get(&self) -> (limit: usize)
        requires
            self.wf(),
        ensures
            limit == self@.limit,
    {
        self.state.limit
    }

    /// Free slots a new request could take right now.
    pub fn available(&self) -> (n: usize)
        requires
            self.wf(),
        ensures
            n == self@.free(),
    {
        self.state.sem.available()
    }

    /// Slots owed because the ceiling was lowered below the number in flight.
    pub fn debt(&self) -> (n: usize)
        requires
            self.wf(),
        ensures
            n == self@.owed(),
    {
        self.state.sem.debt()
    }

    /// Ask for a slot, from place `place` or without one yet.
    pub fn ask(&mut self, place: Option<u64>) -> (turn: Turn)
        requires
            old(self).wf(),
            place matches Some(t) ==> old(self)@.has(t),
            place is None ==> old(self)@.next < u64::MAX,
        ensures
            final(self).wf(),
            final(self)@ == old(self)@.asked(place),
            turn is Taken <==> old(self)@.pool().serves(place),
            turn matches Turn::Wait(t) ==> Some(t) == old(self)@.pool().place_after(place),
            turn matches Turn::Wait(t) ==> final(self)@.has(t),
            old(self)@.keeps_places(final(self)@, place),
    {
        proof {
            assert(self@.pool() == self.state.sem@);
        }
        let after = self.state.sem.ask(place);
        proof {
            self.state.sem.law_permits_and_debt_exclude_each_other();
            assert(self@.pool() == self.state.sem@);
        }
        match after {
            None => Turn::Taken(Slot { _held: () }),
            Some(t) => Turn::Wait(t),
        }
    }

    /// Whether there is a place left to give out.
    pub fn has_places(&self) -> (left: bool)
        ensures
            left <==> self@.next < u64::MAX,
    {
        self.state.sem.has_places()
    }

    /// Whether a slot is set aside for place `t`.
    pub fn is_granted(&self, t: u64) -> (granted: bool)
        requires
            self.wf(),
        ensures
            granted <==> self@.granted.contains(t),
    {
        self.state.sem.is_granted(t)
    }

    /// Give place `t` up. Where a slot was set aside for it, that goes back like any other.
    pub fn leave(&mut self, t: u64)
        requires
            old(self).wf(),
            old(self)@.has(t),
            old(self)@.granted.contains(t) ==> old(self)@.held > 0 && old(self)@.limit
                - old(self)@.held < MAX_PERMITS,
        ensures
            final(self).wf(),
            final(self)@ == old(self)@.left(t),
            old(self)@.keeps_places(final(self)@, Some(t)),
    {
        proof {
            assert(self@.pool() == self.state.sem@);
        }
        self.state.sem.leave(t);
        proof {
            self.state.sem.law_permits_and_debt_exclude_each_other();
            assert(self@.pool() == self.state.sem@);
        }
    }

    /// Give a slot back, against the debt first.
    pub fn give_back(&mut self, slot: Slot)
        requires
            old(self).wf(),
            old(self)@.held > 0,
            old(self)@.limit - old(self)@.held < MAX_PERMITS,
        ensures
            final(self).wf(),
            final(self)@ == old(self)@.returned(),
            old(self)@.keeps_places(final(self)@, None),
            old(self)@.limit == old(self)@.held && old(self)@.line.len() > 0 ==> final(self)@.granted
                == old(self)@.granted.insert(old(self)@.line[0]) && final(self)@.line
                == old(self)@.line.skip(1),
    {
        proof {
            assert(self@.pool() == self.state.sem@);
        }
        self.state.sem.release();
        proof {
            self.state.sem.law_permits_and_debt_exclude_each_other();
            assert(self@.pool() == self.state.sem@);
        }
    }
}

/// Holds a slot for the lifetime of a request. It goes back through
/// [`ConcurrencyLimit::give_back`], whether the request completed or was cancelled.
pub struct Slot {
    _held: (),
}

/// Wraps a service in a concurrency limit that can be retuned at runtime.
pub struct DynamicConcurrencyLimitLayer {
    limit: ConcurrencyLimit,
}

impl View for DynamicConcurrencyLimitLayer {
    type V = ConcurrencyLimit;

    /// The limit that the layer enforces.
    closed spec fn view(&self) -> ConcurrencyLimit {
        self.limit
    }
}

impl DynamicConcurrencyLimitLayer {
    pub fn new(limit: usize) -> (l: Self)
        requires
            limit <= MAX_PERMITS,
        ensures
            l@.wf(),
            l@@ == Occupancy::fresh(limit as int),
    {
        DynamicConcurrencyLimitLayer { limit: ConcurrencyLimit::new(limit) }
    }

    /// A layer enforcing an existing limit.
    pub fn from_handle(limit: ConcurrencyLimit) -> (l: Self)
        ensures
            l@ == limit,
    {
        DynamicConcurrencyLimitLayer { limit }
    }

    /// A handle to tune or inspect this layer's limit: what is done through it is done to
    /// the limit the layer enforces.
    pub fn handle(&mut self) -> (handle: &mut ConcurrencyLimit)
        ensures
            *handle == old(self)@,
            final(self)@ == *final(handle),
    {
        &mut self.limit
    }

    /// Put `inner` behind the limit.
    pub fn layer<S>(&self, inner: S) -> (service: DynamicConcurrencyLimitService<S>)
        ensures
            service.inner == inner,
            service.permit is None,
            service.place is None,
    {
        DynamicConcurrencyLimitService { inner, permit: None, place: None }
    }
}

/// An inner service that takes a request only while it holds a slot.
pub struct DynamicConcurrencyLimitService<S> {
    pub inner: S,
    /// The slot reserved by [`reserve`](Self::reserve) and not spent yet.
    pub permit: Option<Slot>,
    /// The place in line, while this service waits for a slot.
    pub place: Option<u64>,
}

impl<S: Clone> Clone for DynamicConcurrencyLimitService<S> {
    /// A clone is a service of its own: it reserves its own slot and waits at its own place.
    fn clone(&self) -> (service: Self)
        ensures
            cloned(self.inner, service.inner),
            service.permit is None,
            service.place is None,
    {
        DynamicConcurrencyLimitService { inner: self.inner.clone(), permit: None, place: None }
    }
}

impl<S> DynamicConcurrencyLimitService<S> {
    /// A service that waits has a place that the limit knows; one that holds a slot waits
    /// no more.
    pub open spec fn belongs(self, o: Occupancy) -> bool {
        self.place matches Some(t) ==> o.has(t) && self.permit is None
    }

    /// This service has a slot once it has asked for one.
    pub open spec fn gets_slot(self, o: Occupancy) -> bool {
        self.permit is Some || o.pool().serves(self.place)
    }

    /// Reserve a slot unless one is reserved already. `false` is to wait, at a place in
    /// line, and the inner service is not to be probed. With `true` the inner service
    /// decides.
    pub fn reserve(&mut self, limit: &mut ConcurrencyLimit) -> (reserved: bool)
        requires
            old(limit).wf(),
            old(self).belongs(old(limit)@),
            old(self).permit is None && old(self).place is None ==> old(limit)@.next < u64::MAX,
        ensures
            final(limit).wf(),
            final(self).inner == old(self).inner,
            reserved <==> old(self).gets_slot(old(limit)@),
            reserved <==> final(self).permit is Some,
            old(self).permit is Some ==> final(self).permit == old(self).permit,
            old(self).permit is Some ==> final(self).place == old(self).place,
            old(self).permit is None ==> final(self).place == old(limit)@.pool().place_after(
                old(self).place,
            ),
            final(limit)@ == if old(self).permit is Some {
                old(limit)@
            } else {
                old(limit)@.asked(old(self).place)
            },
            final(self).belongs(final(limit)@),
            old(limit)@.keeps_places(final(limit)@, old(self).place),
    {
        if self.permit.is_none() {
            match limit.ask(self.place) {
                Turn::Taken(slot) => {
                    self.permit = Some(slot);
                    self.place = None;
                },
                Turn::Wait(t) => {
                    self.place = Some(t);
                },
            }
        }
        self.permit.is_some()
    }

    /// Readiness: that of the inner service once a slot is reserved. `probe` is what
    /// probing it came to, and is read in that case only.
    pub fn poll_ready<E>(&mut self, limit: &mut ConcurrencyLimit, probe: Readiness<E>) -> (ready:
        Readiness<E>)
        requires
            old(limit).wf(),
            old(self).belongs(old(limit)@),
            old(self).permit is None && old(self).place is None ==> old(limit)@.next < u64::MAX,
        ensures
            final(limit).wf(),
            final(self).inner == old(self).inner,
            final(self).permit is Some <==> old(self).gets_slot(old(limit)@),
            old(self).permit is Some ==> final(self).permit == old(self).permit,
            old(self).permit is Some ==> final(self).place == old(self).place,
            old(self).permit is None ==> final(self).place == old(limit)@.pool().place_after(
                old(self).place,
            ),
            final(limit)@ == if old(self).permit is Some {
                old(limit)@
            } else {
                old(limit)@.asked(old(self).place)
            },
            final(self).belongs(final(limit)@),
            old(limit)@.keeps_places(final(limit)@, old(self).place),
            ready == if old(self).gets_slot(old(limit)@) { probe } else { Readiness::Pending },
    {
        if self.reserve(limit) {
            probe
        } else {
            Readiness::Pending
        }
    }

    /// Spend the reserved slot on a request. A slot must have been reserved.
    pub fn call(&mut self) -> (slot: Slot)
        requires
            old(self).permit is Some,
        ensures
            final(self).inner == old(self).inner,
            final(self).permit is None,
            final(self).place == old(self).place,
            Some(slot) == old(self).permit,
    {
        let slot = self.permit.take();
        slot.unwrap()
    }

    /// The service goes away: a slot reserved and never spent goes back like that of a
    /// finished request, and a place in line is given up.
    pub fn retire(&mut self, limit: &mut ConcurrencyLimit)
        requires
            old(limit).wf(),
            old(self).belongs(old(limit)@),
            old(self).permit is Some || (old(self).place matches Some(t)
                && old(limit)@.granted.contains(t)) ==> old(limit)@.held > 0 && old(limit)@.limit
                - old(limit)@.held < MAX_PERMITS,
        ensures
            final(limit).wf(),
            final(self).inner == old(self).inner,
            final(self).permit is None,
            final(self).place is None,
            final(limit)@ == if old(self).permit is Some {
                old(limit)@.returned()
            } else {
                match old(self).place {
                    Some(t) => old(limit)@.left(t),
                    None => old(limit)@,
                }
            },
            old(limit)@.keeps_places(final(limit)@, old(self).place),
            old(self).permit is Some && old(limit)@.limit == old(limit)@.held
                && old(limit)@.line.len() > 0 ==> final(limit)@.granted
                == old(limit)@.granted.insert(old(limit)@.line[0]) && final(limit)@.line
                == old(limit)@.line.skip(1),
    {
        if let Some(slot) = self.permit.take() {
            limit.give_back(slot);
        }
        if let Some(t) = self.place.take() {
            limit.leave(t);
        }
    }
}

// ---- laws ----

/// The order of retunings does not matter, only the last one, unless one on the way served
/// somebody in line whom the last one does not: a slot set aside is not taken back. A ceiling
/// that serves nobody moves without touching the slots in use, and can be moved back.
pub proof fn law_only_the_last_ceiling_counts(o: Occupancy, a: int, b: int)
    requires
        o.fits(),
        o.served_at(a) <= o.served_at(b),
    ensures
        o.with_limit(a).with_limit(b) == o.with_limit(b),
        o.served_at(a) == 0 ==> o.with_limit(a).held == o.held,
        o.served_at(a) == 0 ==> o.with_limit(a).with_limit(o.limit) == o,
        o.line.len() == 0 ==> o.served_at(a) == 0,
{
    lemma_retuned_twice(o, a, b);
    if o.served_at(a) == 0 {
        assert(o.served_at(o.limit) == 0);
        lemma_retuned_twice(o, a, o.limit);
        assert(o.line.skip(0) =~= o.line);
        assert(o.line.take(0).to_set() =~= Set::<u64>::empty());
        assert(o.granted.union(Set::empty()) =~= o.granted);
        assert(o.with_limit(o.limit) == o);
    }
}

proof fn lemma_retuned_twice(o: Occupancy, a: int, b: int)
    requires
        o.served_at(a) <= o.served_at(b),
    ensures
        o.with_limit(a).with_limit(b) == o.with_limit(b),
{
    let j = o.served_at(a);
    let k = o.served_at(b);
    let line = o.line;
    let rest = line.skip(j);
    assert(o.with_limit(a).line == rest);
    assert(rest.skip(k - j) =~= line.skip(k));
    let near = line.take(j).to_set();
    let far = rest.take(k - j).to_set();
    assert(near.union(far) =~= line.take(k).to_set()) by {
        assert forall|t: u64| #![auto]
            near.union(far).contains(t) <==> line.take(k).to_set().contains(t) by {
            let first = line.take(j);
            let next = rest.take(k - j);
            let all = line.take(k);
            if first.contains(t) {
                let i = choose|i: int| 0 <= i < first.len() && first[i] == t;
                assert(all[i] == t);
            }
            if next.contains(t) {
                let i = choose|i: int| 0 <= i < next.len() && next[i] == t;
                assert(all[i + j] == t);
            }
            if all.contains(t) {
                let i = choose|i: int| 0 <= i < all.len() && all[i] == t;
                if i < j {
                    assert(first[i] == t);
                } else {
                    assert(next[i - j] == t);
                }
            }
        }
    }
    assert(o.granted.union(near).union(far) =~= o.granted.union(line.take(k).to_set()));
}

proof fn lemma_nobody_waits(o: Occupancy, n: int)
    requires
        o.line.len() == 0,
    ensures
        o.pool().moved(n) == (Pool { balance: o.pool().balance + n, ..o.pool() }),
{
    let p = o.pool();
    assert(p.line.skip(0) =~= p.line);
    assert(p.line.take(0).to_set() =~= Set::<u64>::empty());
    assert(p.granted.union(Set::empty()) =~= p.granted);
}

/// Free slots and debt never coexist, together with the ceiling they tell how many slots
/// are in use, and no slot is free while anybody waits.
pub proof fn law_free_slots_and_debt_exclude_each_other(o: Occupancy)
    ensures
        o.free() == 0 || o.owed() == 0,
        o.free() - o.owed() == o.limit - o.held,
        o.fits() && o.line.len() > 0 ==> o.free() == 0,
{
}

/// Lowering the ceiling below what is in flight books the shortfall; raising it cancels
/// debt first, serves the line next, and frees slots with the rest.
pub proof fn law_retuning_goes_through_the_debt(o: Occupancy, new: int)
    requires
        o.fits(),
    ensures
        new < o.limit && o.free() == 0 ==> o.with_limit(new).owed() == o.owed() + (o.limit - new),
        new < o.limit && o.free() >= o.limit - new ==> o.with_limit(new).free() == o.free() - (
        o.limit - new) && o.with_limit(new).owed() == 0,
        new > o.limit && o.owed() >= new - o.limit ==> o.with_limit(new).owed() == o.owed() - (new
            - o.limit) && o.with_limit(new).free() == 0 && o.with_limit(new).line == o.line,
        new > o.limit && o.owed() == 0 && o.line.len() >= new - o.limit ==> o.with_limit(new).free()
            == 0 && o.with_limit(new).line == o.line.skip(new - o.limit),
        new > o.limit && o.owed() == 0 && o.line.len() <= new - o.limit ==> o.with_limit(new).free()
            == o.free() + (new - o.limit) - o.line.len() && o.with_limit(new).line.len() == 0,
{
    assert(o.line.skip(0) =~= o.line);
}

/// A finished request pays debt off before anything else. Without debt its slot goes to the
/// first in line, and is free where nobody waits.
pub proof fn law_completion_repays_debt_first(o: Occupancy)
    requires
        o.fits(),
    ensures
        o.owed() > 0 ==> o.returned().owed() == o.owed() - 1 && o.returned().free() == 0
            && o.returned().line == o.line,
        o.owed() == 0 && o.line.len() > 0 ==> o.returned().free() == 0 && o.returned().owed() == 0
            && o.returned().line == o.line.skip(1) && o.returned().granted.contains(o.line[0]),
        o.owed() == 0 && o.line.len() == 0 ==> o.returned().free() == o.free() + 1
            && o.returned().owed() == 0,
{
    assert(o.line.skip(0) =~= o.line);
    if o.line.len() > 0 {
        assert(o.line.take(1)[0] == o.line[0]);
    }
}

/// The ceiling is moved to where it was asked for. Nobody who holds a slot loses it; the slots
/// that the ceiling has room for beyond those go to the line, from the front and one each.
pub proof fn law_retuning_serves_the_line_in_order(o: Occupancy, new: int)
    ensures
        o.with_limit(new).limit == new,
        o.with_limit(new).next == o.next,
        new <= o.held ==> o.with_limit(new).held == o.held && o.with_limit(new).line == o.line,
        o.held <= new <= o.held + o.line.len() ==> o.with_limit(new).held == new && o.with_limit(
            new,
        ).line == o.line.skip(new - o.held),
        new >= o.held + o.line.len() ==> o.with_limit(new).held == o.held + o.line.len()
            && o.with_limit(new).line.len() == 0,
        forall|t: u64| #[trigger]
            o.with_limit(new).granted.contains(t) <==> o.granted.contains(t) || exists|i: int|
                0 <= i < o.line.len() && i < new - o.held && #[trigger] o.line[i] == t,
{
    law_capacity_goes_to_the_line_in_order(o.pool(), new - o.limit);
    assert forall|t: u64| #[trigger]
        o.with_limit(new).granted.contains(t) <==> o.granted.contains(t) || exists|i: int|
            0 <= i < o.line.len() && i < new - o.held && #[trigger] o.line[i] == t by {
        assert(o.pool().moved(new - o.limit).granted.contains(t) <==> o.granted.contains(t)
            || exists|i: int|
            0 <= i < o.line.len() && i < new - o.held && #[trigger] o.pool().line[i] == t);
    }
}

/// A slot that comes back leaves the ceiling alone. Above the ceiling it is swallowed, at the
/// ceiling it is set aside for the first in line, who alone moves up, and otherwise it is
/// free.
pub proof fn law_a_slot_that_comes_back_serves_the_first_in_line(o: Occupancy)
    ensures
        o.returned().limit == o.limit,
        o.returned().next == o.next,
        o.held > o.limit || o.line.len() == 0 ==> o.returned().held == o.held - 1
            && o.returned().line == o.line && o.returned().granted == o.granted,
        o.held == o.limit && o.line.len() > 0 ==> o.returned().held == o.held && o.returned().line
            == o.line.skip(1) && o.returned().granted == o.granted.insert(o.line[0]),
{
    let p = o.pool();
    law_capacity_goes_to_the_line_in_order(p, 1);
    if o.held == o.limit && o.line.len() > 0 {
        assert(p.moved(1).granted =~= o.granted.insert(o.line[0]));
    } else if o.held > o.limit || o.line.len() == 0 {
        assert(p.moved(1).granted =~= o.granted);
        assert(p.moved(1).line =~= o.line);
    }
}

/// Asking takes one slot below the ceiling and a place at the end of the line at or above it;
/// from a place, it takes the slot set aside there, which was counted as held already.
pub proof fn law_asking_takes_a_slot_or_joins_the_end(o: Occupancy, t: u64)
    ensures
        o.asked(None).limit == o.limit,
        o.asked(None).granted == o.granted,
        o.held < o.limit ==> o.asked(None).held == o.held + 1 && o.asked(None).line == o.line
            && o.asked(None).next == o.next,
        o.held >= o.limit ==> o.asked(None).held == o.held && o.asked(None).line == o.line.push(
            o.next as u64,
        ) && o.asked(None).next == o.next + 1,
        o.asked(Some(t)).limit == o.limit,
        o.asked(Some(t)).held == o.held,
        o.asked(Some(t)).line == o.line,
        o.asked(Some(t)).next == o.next,
        o.asked(Some(t)).granted == o.granted.remove(t),
        o.pool().serves(None) <==> o.held < o.limit,
        o.pool().serves(Some(t)) <==> o.granted.contains(t),
        o.pool().place_after(None) == if o.held < o.limit { None } else { Some(o.next as u64) },
        o.pool().place_after(Some(t)) == if o.granted.contains(t) { None } else { Some(t) },
{
}

/// A service gets a slot where it has one, where its place has one set aside, or, before it
/// waits, where the ceiling leaves one.
pub proof fn law_a_service_gets_a_slot_exactly_where_there_is_one<S>(
    service: DynamicConcurrencyLimitService<S>,
    o: Occupancy,
)
    ensures
        service.permit is Some ==> service.gets_slot(o),
        service.permit is None && service.place is None ==> (service.gets_slot(o) <==> o.held
            < o.limit),
        service.permit is None ==> (service.place matches Some(t) ==> (service.gets_slot(o)
            <==> o.granted.contains(t))),
{
}

/// Giving up a place in line keeps the order of the others and every slot where it is. Giving
/// up a slot that was set aside hands it on like any slot that comes back.
pub proof fn law_leaving_keeps_the_order_of_the_others(o: Occupancy, t: u64)
    requires
        o.line.no_duplicates(),
        o.line.contains(t) ==> !o.granted.contains(t),
    ensures
        o.left(t).limit == o.limit,
        o.left(t).next == o.next,
        o.line.contains(t) ==> o.left(t).held == o.held && o.left(t).granted == o.granted && o.left(
            t,
        ).line == o.line.filter(|u: u64| u != t),
        o.granted.contains(t) ==> o.left(t) == (Occupancy {
            granted: o.granted.remove(t),
            ..o
        }).returned(),
{
    let p = o.pool();
    if o.line.contains(t) {
        law_giving_up_a_place_keeps_the_order_of_the_others(p, t);
    }
    if o.granted.contains(t) {
        law_a_permit_given_up_serves_the_next(p, t);
        assert((Occupancy { granted: o.granted.remove(t), ..o }).pool() == (Pool {
            granted: p.granted.remove(t),
            ..p
        }));
    } else if !o.line.contains(t) {
        assert(o.left(t).next == o.next);
    }
}

/// A limit and the pool of its slots are two ways to count the same: what is held is what
/// separates the pool's balance from the ceiling, and the line is the pool's.
pub proof fn law_what_is_held_is_missing_from_the_pool(limit: int, p: Pool, o: Occupancy, t: u64)
    ensures
        Occupancy::of(limit, p).limit == limit,
        Occupancy::of(limit, p).held == limit - p.balance,
        Occupancy::of(limit, p).line == p.line,
        Occupancy::of(limit, p).granted == p.granted,
        Occupancy::of(limit, p).next == p.next,
        o.pool().balance == o.limit - o.held,
        o.pool().line == o.line,
        o.pool().granted == o.granted,
        o.pool().next == o.next,
        o.has(t) <==> o.line.contains(t) || o.granted.contains(t),
{
}

/// A service that waits has a place that the limit knows and no slot.
pub proof fn law_a_waiting_service_has_a_place_and_no_slot<S>(
    service: DynamicConcurrencyLimitService<S>,
    o: Occupancy,
)
    ensures
        service.place is None ==> service.belongs(o),
        service.place matches Some(t) ==> (service.belongs(o) <==> service.permit is None && (
        o.line.contains(t) || o.granted.contains(t))),
{
}

/// A limit starts with nothing held and nobody waiting: all of its ceiling is free.
pub proof fn law_a_limit_starts_free(limit: int)
    requires
        limit >= 0,
    ensures
        Occupancy::fresh(limit).limit == limit,
        Occupancy::fresh(limit).held == 0,
        Occupancy::fresh(limit).free() == limit,
        Occupancy::fresh(limit).owed() == 0,
        Occupancy::fresh(limit).line.len() == 0,
        Occupancy::fresh(limit).granted == Set::<u64>::empty(),
        Occupancy::fresh(limit).next == 0,
{
}

/// Nobody gets ahead of the line: while anybody waits, whoever asks without a place gets
/// none of the slots and waits behind them.
pub proof fn law_nobody_gets_ahead_of_the_line(o: Occupancy)
    requires
        o.fits(),
        o.line.len() > 0,
    ensures
        !o.pool().serves(None),
        o.asked(None).held == o.held,
        o.asked(None).line == o.line.push(o.next as u64),
{
}

/// Capacity converges: once everyone who holds a slot, or gets one from the line, has given
/// it back, the whole ceiling is free and nothing is owed, wherever the ceiling was moved to
/// meanwhile. Only at a ceiling of zero those in line wait on.
pub proof fn law_capacity_converges_on_the_ceiling(o: Occupancy, new: int)
    requires
        o.fits(),
        new >= 0,
        new > 0 || o.line.len() == 0,
    ensures
        ({
            let moved = o.with_limit(new);
            let end = after_returns(moved, (moved.held + moved.line.len()) as nat);
            &&& end.held == 0
            &&& end.line.len() == 0
            &&& end.free() == new
            &&& end.owed() == 0
        }),
{
    let moved = o.with_limit(new);
    lemma_after_returns(moved, (moved.held + moved.line.len()) as nat);
}

/// The occupancy after `n` slots came back.
pub open spec fn after_returns(o: Occupancy, n: nat) -> Occupancy
    decreases n,
{
    if n == 0 { o } else { after_returns(o.returned(), (n - 1) as nat) }
}

proof fn lemma_after_returns(o: Occupancy, n: nat)
    requires
        o.held >= 0,
        o.line.len() > 0 ==> o.held >= o.limit > 0,
        n == o.held + o.line.len(),
    ensures
        after_returns(o, n).limit == o.limit,
        after_returns(o, n).held == 0,
        after_returns(o, n).line.len() == 0,
    decreases n,
{
    if n > 0 {
        lemma_after_returns(o.returned(), (n - 1) as nat);
    }
}

/// Taking a slot keeps the number in flight within the ceiling: a slot is there to be
/// taken only below it.
pub proof fn law_no_slot_above_the_ceiling(o: Occupancy)
    ensures
        o.free() > 0 <==> o.held < o.limit,
        o.free() > 0 <==> o.pool().serves(None),
        o.free() > 0 ==> o.asked(None).held == o.held + 1 <= o.limit,
        o.limit == 0 && o.held >= 0 ==> o.free() == 0,
{
}

/// A slot taken and given back leaves everything as it was.
pub proof fn law_a_returned_slot_leaves_no_trace(o: Occupancy)
    requires
        o.fits(),
        o.free() > 0,
    ensures
        o.asked(None).returned() == o,
{
    lemma_nobody_waits(o.asked(None), 1);
}

/// What can happen to a limit.
pub enum Use {
    /// Someone asks, from a place or without one.
    Ask(Option<u64>),
    GiveBack,
    Leave(u64),
    Retune(int),
}

impl Occupancy {
    /// Slots in use or asked for in vain: those held and those in line for.
    pub open spec fn demand(self) -> int {
        self.held + self.line.len()
    }

    /// The occupancy after one use.
    pub open spec fn after(self, u: Use) -> Occupancy {
        match u {
            Use::Ask(place) => self.asked(place),
            Use::GiveBack => self.returned(),
            Use::Leave(t) => self.left(t),
            Use::Retune(limit) => self.with_limit(limit),
        }
    }

    /// A use that can be made: of places that are there.
    pub open spec fn allows(self, u: Use) -> bool {
        match u {
            Use::Ask(Some(t)) => self.has(t),
            Use::Ask(None) => self.next < u64::MAX,
            Use::Leave(t) => self.has(t),
            _ => true,
        }
    }

    /// The occupancy after a run of uses.
    pub open spec fn after_all(self, uses: Seq<Use>) -> Occupancy
        decreases uses.len(),
    {
        if uses.len() == 0 {
            self
        } else {
            self.after_all(uses.drop_last()).after(uses.last())
        }
    }

    /// Every use of a run can be made when its turn comes.
    pub open spec fn allows_all(self, uses: Seq<Use>) -> bool
        decreases uses.len(),
    {
        uses.len() > 0 ==> {
            &&& self.allows_all(uses.drop_last())
            &&& self.after_all(uses.drop_last()).allows(uses.last())
        }
    }
}

/// How many newcomers a run of uses saw.
pub open spec fn newcomers(uses: Seq<Use>) -> nat
    decreases uses.len(),
{
    if uses.len() == 0 {
        0
    } else {
        newcomers(uses.drop_last()) + (if uses.last() == Use::Ask(None) { 1nat } else { 0nat })
    }
}

/// How many gave a slot or a place up in a run of uses.
pub open spec fn given_up(uses: Seq<Use>) -> nat
    decreases uses.len(),
{
    if uses.len() == 0 {
        0
    } else {
        given_up(uses.drop_last()) + (if uses.last() is GiveBack || uses.last() is Leave {
            1nat
        } else {
            0nat
        })
    }
}

/// Nobody is lost and nobody is counted twice: whatever the ceiling was tuned to meanwhile,
/// those with a slot and those in line are together as many as came, less those who gave
/// their slot or their place up.
pub proof fn law_slots_and_places_are_those_who_came_less_those_who_went(
    o: Occupancy,
    uses: Seq<Use>,
)
    requires
        o.allows_all(uses),
    ensures
        o.after_all(uses).demand() == o.demand() + newcomers(uses) - given_up(uses),
    decreases uses.len(),
{
    if uses.len() > 0 {
        law_slots_and_places_are_those_who_came_less_those_who_went(o, uses.drop_last());
        let before = o.after_all(uses.drop_last());
        if let Use::Leave(t) = uses.last() {
            if !before.granted.contains(t) {
                let i = before.line.index_of(t);
                assert(0 <= i < before.line.len() && before.line[i] == t);
            }
        }
    }
}

} // verus!
