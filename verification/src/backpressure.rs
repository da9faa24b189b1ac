//! CPU backpressure: readiness is withheld while every core is busy.
//!
//! An instrumented runtime releases a permit whenever a worker thread parks and acquires
//! one whenever it unparks, so the free permits are the idle cores, less a reserve booked
//! as initial debt. A request reserves a permit on its way in. It hands the permit back
//! the first time it is polled: from then on the thread that runs it accounts for it.
//!
//! A request that finds every core busy keeps a place in line. A core that goes idle is set
//! aside for the first in line at once, so it is not idle for anybody else.

use vstd::prelude::*;

use crate::debt::{
    acquires, free_of, law_capacity_goes_to_the_line_in_order,
    law_the_balance_is_releases_less_acquires, owed_of, pool_after, releases, DebtSemaphore, Pool,
    Shift,
};
use crate::ready::Readiness;

verus! {

/// How busy a runtime is.
pub struct RuntimeInstrumentation {
    semaphore: DebtSemaphore,
}

impl View for RuntimeInstrumentation {
    type V = DebtSemaphore;

    /// The pool of idle cores.
    closed spec fn view(&self) -> DebtSemaphore {
        self.semaphore
    }
}

impl RuntimeInstrumentation {
    pub fn new(semaphore: DebtSemaphore) -> (r: Self)
        ensures
            r@ == semaphore,
    {
        RuntimeInstrumentation { semaphore }
    }

    /// Idle cores still owed to the reserve.
    pub fn debt(&self) -> (n: usize)
        requires
            self@.wf(),
        ensures
            n == self@@.owed(),
    {
        self.semaphore.debt()
    }

    /// Idle cores that a request could take.
    pub fn available(&self) -> (n: usize)
        requires
            self@.wf(),
        ensures
            n == self@@.free(),
    {
        self.semaphore.available()
    }

    /// A worker thread parked: one more core is idle, against the reserve, for the first in
    /// line, or free.
    pub fn parked(&mut self)
        requires
            old(self)@.wf(),
            DebtSemaphore::fits(old(self)@@.balance + 1),
        ensures
            final(self)@.wf(),
            final(self)@@ == old(self)@@.moved(1),
            old(self)@@.keeps_places(final(self)@@, None),
    {
        self.semaphore.release();
    }

    /// A worker thread unparked: one more core is busy.
    pub fn unparked(&mut self)
        requires
            old(self)@.wf(),
            DebtSemaphore::fits(old(self)@@.balance - 1),
        ensures
            final(self)@.wf(),
            final(self)@@ == old(self)@@.moved(-1),
            old(self)@@.keeps_places(final(self)@@, None),
    {
        self.semaphore.acquire();
    }
}

/// A runtime that reports how busy it is.
pub trait InstrumentedRuntime {
    fn instrumentation(&mut self) -> &mut RuntimeInstrumentation;
}

/// Withholds readiness while every core is busy.
pub struct CpuBackpressureLayer<'a> {
    /// The pool that services of this layer reserve from.
    pub semaphore: &'a mut DebtSemaphore,
}

impl<'a> CpuBackpressureLayer<'a> {
    /// A layer that gates on the idle cores of `instr`.
    pub fn new(instr: &'a mut RuntimeInstrumentation) -> (l: Self)
        ensures
            *l.semaphore == old(instr)@,
            final(instr)@ == *final(l.semaphore),
    {
        CpuBackpressureLayer { semaphore: &mut instr.semaphore }
    }

    /// Put `inner` behind this layer.
    pub fn layer<S>(&self, inner: S) -> (service: CpuBackpressureService<S>)
        ensures
            service.inner == inner,
            service.permit is None,
            service.place is None,
    {
        CpuBackpressureService { inner, permit: None, place: None }
    }
}

/// A permit taken out of the pool for one request.
pub struct Admission {
    _taken: (),
}

/// An inner service that takes a request only while it holds a permit.
pub struct CpuBackpressureService<S> {
    pub inner: S,
    /// The permit reserved and not spent yet.
    pub permit: Option<Admission>,
    /// The place in line, while this service waits for a permit.
    pub place: Option<u64>,
}

impl<S: Clone> Clone for CpuBackpressureService<S> {
    /// A clone is a service of its own: it reserves its own permit and waits at its own
    /// place.
    fn clone(&self) -> (service: Self)
        ensures
            cloned(self.inner, service.inner),
            service.permit is None,
            service.place is None,
    {
        CpuBackpressureService { inner: self.inner.clone(), permit: None, place: None }
    }
}

impl<S> CpuBackpressureService<S> {
    /// A service that waits has a place that the pool knows; one that holds a permit waits
    /// no more.
    pub open spec fn belongs(self, pool: Pool) -> bool {
        self.place matches Some(t) ==> pool.has(t) && self.permit is None
    }

    /// This service has a permit once it has asked for one.
    pub open spec fn gets_permit(self, pool: Pool) -> bool {
        self.permit is Some || pool.serves(self.place)
    }

    /// Reserve a permit unless one is reserved already. `false` is to wait, at a place in
    /// line: every core is busy, and the inner service is not to be probed. With `true` the
    /// inner decides.
    pub fn reserve(&mut self, gate: &mut DebtSemaphore) -> (reserved: bool)
        requires
            old(gate).wf(),
            old(self).belongs(old(gate)@),
            old(self).permit is None && old(self).place is None ==> old(gate)@.next < u64::MAX,
        ensures
            final(gate).wf(),
            final(self).inner == old(self).inner,
            reserved <==> final(self).permit is Some,
            reserved <==> old(self).gets_permit(old(gate)@),
            old(self).permit is Some ==> final(self).permit == old(self).permit && final(self).place
                == old(self).place,
            old(self).permit is None ==> final(self).place == old(gate)@.place_after(
                old(self).place,
            ),
            final(gate)@ == if old(self).permit is Some {
                old(gate)@
            } else {
                old(gate)@.asked(old(self).place)
            },
            final(self).belongs(final(gate)@),
            old(gate)@.keeps_places(final(gate)@, old(self).place),
    {
        if self.permit.is_none() {
            self.place = gate.ask(self.place);
            if self.place.is_none() {
                self.permit = Some(Admission { _taken: () });
            }
        }
        self.permit.is_some()
    }

    /// Readiness: that of the inner service once a permit is reserved. `probe` is what
    /// probing it came to, and is read in that case only.
    pub fn poll_ready<E>(&mut self, gate: &mut DebtSemaphore, probe: Readiness<E>) -> (ready:
        Readiness<E>)
        requires
            old(gate).wf(),
            old(self).belongs(old(gate)@),
            old(self).permit is None && old(self).place is None ==> old(gate)@.next < u64::MAX,
        ensures
            final(gate).wf(),
            final(self).inner == old(self).inner,
            final(self).permit is Some <==> old(self).gets_permit(old(gate)@),
            old(self).permit is Some ==> final(self).permit == old(self).permit && final(self).place
                == old(self).place,
            old(self).permit is None ==> final(self).place == old(gate)@.place_after(
                old(self).place,
            ),
            final(gate)@ == if old(self).permit is Some {
                old(gate)@
            } else {
                old(gate)@.asked(old(self).place)
            },
            final(self).belongs(final(gate)@),
            old(gate)@.keeps_places(final(gate)@, old(self).place),
            ready == if old(self).gets_permit(old(gate)@) { probe } else { Readiness::Pending },
    {
        if self.reserve(gate) {
            probe
        } else {
            Readiness::Pending
        }
    }

    /// Spend the reserved permit on a request. A permit must have been reserved.
    pub fn call(&mut self) -> (future: ResponseFuture)
        requires
            old(self).permit is Some,
        ensures
            final(self).inner == old(self).inner,
            final(self).permit is None,
            final(self).place == old(self).place,
            future.admission == old(self).permit,
    {
        ResponseFuture { admission: self.permit.take() }
    }

    /// The service goes away: a permit reserved and never spent goes back to the pool, and a
    /// place in line is given up.
    pub fn retire(&mut self, gate: &mut DebtSemaphore)
        requires
            old(gate).wf(),
            old(self).belongs(old(gate)@),
            old(self).permit is Some || (old(self).place matches Some(t)
                && old(gate)@.granted.contains(t)) ==> DebtSemaphore::fits(
                old(gate)@.balance + 1,
            ),
        ensures
            final(gate).wf(),
            final(self).inner == old(self).inner,
            final(self).permit is None,
            final(self).place is None,
            final(gate)@ == if old(self).permit is Some {
                old(gate)@.moved(1)
            } else {
                match old(self).place {
                    Some(t) => old(gate)@.left(t),
                    None => old(gate)@,
                }
            },
            old(gate)@.keeps_places(final(gate)@, old(self).place),
    {
        if self.permit.take().is_some() {
            gate.release();
        }
        if let Some(t) = self.place.take() {
            gate.leave(t);
        }
    }
}

/// What a request carries along: its permit, until it is first polled.
pub struct ResponseFuture {
    pub admission: Option<Admission>,
}

impl ResponseFuture {
    /// The request was polled, or dropped without ever being polled: the permit goes back,
    /// the first time and no other.
    pub fn poll(&mut self, gate: &mut DebtSemaphore)
        requires
            old(gate).wf(),
            old(self).admission is Some ==> DebtSemaphore::fits(
                old(gate)@.balance + 1,
            ),
        ensures
            final(gate).wf(),
            final(self).admission is None,
            final(gate)@ == if old(self).admission is Some {
                old(gate)@.moved(1)
            } else {
                old(gate)@
            },
            old(gate)@.keeps_places(final(gate)@, None),
    {
        if self.admission.take().is_some() {
            gate.release();
        }
    }
}

// ---- laws ----

/// The balance of a gate with a reserve after `parks` threads parked and `unparks` of them
/// went back to work.
pub open spec fn gate_balance(reserve: int, parks: int, unparks: int) -> int {
    parks - unparks - reserve
}

/// Admissions are the idle cores less the reserve: while no more cores are idle than the
/// reserve asks for, nothing gets in, and above it every idle core lets one in.
pub proof fn law_admissions_are_idle_cores_less_the_reserve(reserve: int, parks: int, unparks: int)
    requires
        0 <= reserve,
        0 <= unparks <= parks,
    ensures
        free_of(gate_balance(reserve, 0, 0)) == 0,
        owed_of(gate_balance(reserve, 0, 0)) == reserve,
        parks - unparks <= reserve ==> free_of(gate_balance(reserve, parks, unparks)) == 0,
        parks - unparks >= reserve ==> free_of(gate_balance(reserve, parks, unparks)) == parks
            - unparks - reserve,
{
}

/// A fully loaded machine lets nothing in: with every core that went idle busy again, no
/// permit is free.
pub proof fn law_a_fully_loaded_machine_lets_nothing_in(reserve: int, cores: int)
    requires
        0 <= reserve,
        0 <= cores,
    ensures
        free_of(gate_balance(reserve, cores, cores)) == 0,
{
}

/// However parks and unparks are interleaved, a gate that started with a reserve and that
/// nobody waits at has the balance of its parks less its unparks less the reserve.
pub proof fn law_the_gate_counts_any_history(reserve: int, shifts: Seq<Shift>)
    ensures
        pool_after(Pool::of(-reserve), shifts).balance == gate_balance(
            reserve,
            releases(shifts) as int,
            acquires(shifts) as int,
        ),
{
    law_the_balance_is_releases_less_acquires(Pool::of(-reserve), shifts);
}

/// A service gets a permit where it has one, where its place has one set aside, or, before it
/// waits, where a core is idle beyond the reserve.
pub proof fn law_a_service_gets_a_permit_exactly_where_there_is_one<S>(
    service: CpuBackpressureService<S>,
    pool: Pool,
)
    ensures
        service.permit is Some ==> service.gets_permit(pool),
        service.permit is None && service.place is None ==> (service.gets_permit(pool)
            <==> pool.balance > 0),
        service.permit is None ==> (service.place matches Some(t) ==> (service.gets_permit(pool)
            <==> pool.granted.contains(t))),
{
}

/// A service that waits has a place that the pool knows and no permit.
pub proof fn law_a_waiting_service_has_a_place_and_no_permit<S>(
    service: CpuBackpressureService<S>,
    pool: Pool,
)
    ensures
        service.place is None ==> service.belongs(pool),
        service.place matches Some(t) ==> (service.belongs(pool) <==> service.permit is None && (
        pool.line.contains(t) || pool.granted.contains(t))),
{
}

/// A core that goes idle or busy moves the balance by one, or one place from the line to those
/// served, and nothing else.
pub proof fn law_a_core_counts_for_one(pool: Pool)
    requires
        pool.line.len() > 0 ==> pool.balance <= 0,
    ensures
        pool.moved(-1) == (Pool { balance: pool.balance - 1, ..pool }),
        pool.balance < 0 || pool.line.len() == 0 ==> pool.moved(1) == (Pool {
            balance: pool.balance + 1,
            ..pool
        }),
        pool.balance == 0 && pool.line.len() > 0 ==> pool.moved(1) == (Pool {
            line: pool.line.skip(1),
            granted: pool.granted.insert(pool.line[0]),
            ..pool
        }),
{
    law_capacity_goes_to_the_line_in_order(pool, -1);
    law_capacity_goes_to_the_line_in_order(pool, 1);
    assert(pool.moved(-1).granted =~= pool.granted);
    if pool.balance == 0 && pool.line.len() > 0 {
        assert(pool.moved(1).granted =~= pool.granted.insert(pool.line[0]));
    } else {
        assert(pool.moved(1).granted =~= pool.granted);
        assert(pool.moved(1).line =~= pool.line);
    }
    assert(pool.moved(-1).line =~= pool.line);
}

/// Requests get in by idle cores alone, first come first served: while every core is busy
/// and requests wait, a core that goes idle is set aside for the first of them, and a
/// newcomer waits behind them.
pub proof fn law_an_idle_core_goes_to_the_first_in_line(pool: Pool)
    requires
        pool.wf(),
        pool.line.len() > 0,
    ensures
        !pool.serves(None),
        pool.owed() == 0 ==> pool.moved(1).serves(Some(pool.line[0])) && !pool.moved(1).serves(
            None,
        ),
        pool.owed() > 0 ==> pool.moved(1).granted == pool.granted && pool.moved(1).owed()
            == pool.owed() - 1,
{
    if pool.owed() == 0 {
        assert(pool.line.take(1)[0] == pool.line[0]);
    } else {
        assert(pool.line.take(0).to_set() =~= Set::<u64>::empty());
        assert(pool.granted.union(Set::empty()) =~= pool.granted);
    }
}

} // verus!
