//! A semaphore whose permit count can be lowered even while permits are held.
//!
//! A plain semaphore cannot do that: a permit that a task already holds cannot be clawed
//! back. [`DebtSemaphore`] pairs the semaphore with a `debt` counter. Lowering capacity
//! ([`acquire`](DebtSemaphore::acquire)) forgets a free permit if one exists and books a
//! unit of debt otherwise; raising capacity ([`release`](DebtSemaphore::release)) cancels
//! a unit of debt first and hands a real permit back otherwise. Held permits are returned
//! through `release` as well, so they cancel debt instead of growing the pool, and live
//! capacity converges on its target without ever revoking a permit in use.
//!
//! Both counters together are one signed number, the *balance*: free permits count up
//! from zero, debt counts down from it, and never are both present.
//!
//! Whoever finds no permit free gets a place in line. A permit that comes free goes to the
//! first in line and is set aside for it, so nobody who comes later gets ahead, and no
//! permit is free while anybody waits.

use tokio::sync::Semaphore;
use vstd::prelude::*;

verus! {

/// The semaphore of the tokio crate, as an opaque value.
#[verifier::external_type_specification]
#[verifier::external_body]
pub struct ExSemaphore(tokio::sync::Semaphore);

/// The most permits that a semaphore can hold (`Semaphore::MAX_PERMITS`).
pub const MAX_PERMITS: usize = usize::MAX / 8;

/// The number of permits that are free in a semaphore.
pub uninterp spec fn permits(s: Semaphore) -> nat;

/// The number of waiters parked on a semaphore.
pub uninterp spec fn waiters(s: Semaphore) -> nat;

/// `Semaphore::new`: all `n` permits are free and nobody waits. It panics above
/// [`MAX_PERMITS`].
#[verifier::external_body]
fn semaphore_new(n: usize) -> (s: Semaphore)
    requires
        n <= MAX_PERMITS,
    ensures
        permits(s) == n,
        waiters(s) == 0,
{
    Semaphore::new(n)
}

/// `Semaphore::forget_permits`: takes away up to `n` free permits for good and returns
/// how many it took.
#[verifier::external_body]
fn semaphore_forget(s: &mut Semaphore, n: usize) -> (taken: usize)
    ensures
        taken == (if n <= permits(*old(s)) { n as nat } else { permits(*old(s)) }),
        permits(*final(s)) == permits(*old(s)) - taken,
        waiters(*final(s)) == waiters(*old(s)),
{
    s.forget_permits(n)
}

/// `Semaphore::add_permits`: adds `n` free permits where no waiter is there to take them.
/// It panics when the total would exceed [`MAX_PERMITS`].
#[verifier::external_body]
fn semaphore_add(s: &mut Semaphore, n: usize)
    requires
        waiters(*old(s)) == 0,
        permits(*old(s)) + n <= MAX_PERMITS,
    ensures
        permits(*final(s)) == permits(*old(s)) + n,
        waiters(*final(s)) == 0,
{
    s.add_permits(n)
}

/// `Semaphore::available_permits`: the number of free permits.
#[verifier::external_body]
fn semaphore_available(s: &Semaphore) -> (n: usize)
    ensures
        n == permits(*s),
{
    s.available_permits()
}

/// The free permits that a balance stands for.
pub open spec fn free_of(balance: int) -> nat {
    if balance > 0 { balance as nat } else { 0 }
}

/// The debt that a balance stands for.
pub open spec fn owed_of(balance: int) -> nat {
    if balance < 0 { (-balance) as nat } else { 0 }
}

/// What a pool is: its balance, the places in line, first come first, the places that a
/// permit is set aside for, and the number of the next place.
#[verifier::ext_equal]
pub struct Pool {
    pub balance: int,
    pub line: Seq<u64>,
    pub granted: Set<u64>,
    pub next: int,
}

impl Pool {
    /// A pool with this balance and nobody waiting.
    pub open spec fn of(balance: int) -> Pool {
        Pool { balance, line: Seq::empty(), granted: Set::empty(), next: 0 }
    }

    /// Free permits are there only while nobody waits, every place in line is there once,
    /// and every place was given out.
    pub open spec fn wf(self) -> bool {
        &&& DebtSemaphore::fits(self.balance)
        &&& self.line.len() > 0 ==> self.balance <= 0
        &&& self.line.no_duplicates()
        &&& forall|t: u64| #[trigger]
            self.line.contains(t) ==> t < self.next && !self.granted.contains(t)
        &&& forall|t: u64| #[trigger] self.granted.contains(t) ==> t < self.next
        &&& 0 <= self.next <= u64::MAX
    }

    /// Permits free to take.
    pub open spec fn free(self) -> nat {
        free_of(self.balance)
    }

    /// Permits owed.
    pub open spec fn owed(self) -> nat {
        owed_of(self.balance)
    }

    /// Place `t` is in line, or a permit is set aside for it.
    pub open spec fn has(self, t: u64) -> bool {
        self.line.contains(t) || self.granted.contains(t)
    }

    /// Every place there is, but for `but`, is there in `after` too: in line, or with a permit
    /// set aside for it.
    pub open spec fn keeps_places(self, after: Pool, but: Option<u64>) -> bool {
        forall|t: u64| self.has(t) && but != Some(t) ==> #[trigger] after.has(t)
    }

    /// How many of the free permits there is somebody in line for.
    pub open spec fn wanted(self) -> int {
        if self.balance <= 0 {
            0
        } else if self.balance < self.line.len() {
            self.balance
        } else {
            self.line.len() as int
        }
    }

    /// Free permits set aside for whoever is first in line.
    pub open spec fn settled(self) -> Pool {
        Pool {
            balance: self.balance - self.wanted(),
            line: self.line.skip(self.wanted()),
            granted: self.granted.union(self.line.take(self.wanted()).to_set()),
            next: self.next,
        }
    }

    /// Capacity moved by `n`.
    pub open spec fn moved(self, n: int) -> Pool {
        (Pool { balance: self.balance + n, ..self }).settled()
    }

    /// Someone with place `place`, or without one yet, can have a permit.
    pub open spec fn serves(self, place: Option<u64>) -> bool {
        match place {
            Some(t) => self.granted.contains(t),
            None => self.balance > 0,
        }
    }

    /// The pool after someone asked for a permit: it is handed over, or they wait in line.
    pub open spec fn asked(self, place: Option<u64>) -> Pool {
        match place {
            Some(t) => Pool { granted: self.granted.remove(t), ..self },
            None => if self.balance > 0 {
                Pool { balance: self.balance - 1, ..self }
            } else {
                Pool { line: self.line.push(self.next as u64), next: self.next + 1, ..self }
            },
        }
    }

    /// The place that someone who asked for a permit is left with.
    pub open spec fn place_after(self, place: Option<u64>) -> Option<u64> {
        if self.serves(place) {
            None
        } else {
            match place {
                Some(t) => Some(t),
                None => Some(self.next as u64),
            }
        }
    }

    /// The pool after place `t` was given up. A permit that was set aside for it comes back
    /// like any other.
    pub open spec fn left(self, t: u64) -> Pool {
        if self.granted.contains(t) {
            (Pool { granted: self.granted.remove(t), ..self }).moved(1)
        } else {
            Pool { line: self.line.remove(self.line.index_of(t)), ..self }
        }
    }
}

/// Where `t` is in `v`.
fn find(v: &Vec<u64>, t: u64) -> (at: Option<usize>)
    ensures
        match at {
            Some(i) => i < v@.len() && v@[i as int] == t,
            None => !v@.contains(t),
        },
{
    for i in 0..v.len()
        invariant
            forall|j: int| 0 <= j < i ==> v@[j] != t,
    {
        if v[i] == t {
            return Some(i);
        }
    }
    None
}

/// A pool of permits that can be lowered below what is held.
pub struct DebtSemaphore {
    semaphore: Semaphore,
    debt: usize,
    line: Vec<u64>,
    granted: Vec<u64>,
    next: u64,
}

impl View for DebtSemaphore {
    type V = Pool;

    closed spec fn view(&self) -> Pool {
        Pool {
            balance: permits(self.semaphore) - self.debt,
            line: self.line@,
            granted: self.granted@.to_set(),
            next: self.next as int,
        }
    }
}

impl DebtSemaphore {
    /// Free permits and debt never coexist, the pool stays inside what the semaphore can
    /// hold, and the line is kept here, so that nobody is parked on the semaphore itself.
    pub closed spec fn wf(self) -> bool {
        &&& permits(self.semaphore) == 0 || self.debt == 0
        &&& permits(self.semaphore) <= MAX_PERMITS
        &&& waiters(self.semaphore) == 0
        &&& self.granted@.no_duplicates()
        &&& self@.wf()
    }

    /// A balance that a pool can have.
    pub open spec fn fits(balance: int) -> bool {
        -(usize::MAX as int) <= balance <= MAX_PERMITS
    }

    /// Free permits and debt never coexist, and no permit is free while anybody waits.
    pub proof fn law_permits_and_debt_exclude_each_other(self)
        requires
            self.wf(),
        ensures
            self@.wf(),
            self@.free() == 0 || self@.owed() == 0,
            self@.free() - self@.owed() == self@.balance,
            self@.line.len() > 0 ==> self@.free() == 0,
    {
    }

    /// A pool with `initial_permits` free permits.
    pub fn new(initial_permits: usize) -> (s: Self)
        requires
            initial_permits <= MAX_PERMITS,
        ensures
            s.wf(),
            s@ == Pool::of(initial_permits as int),
    {
        let s = DebtSemaphore {
            semaphore: semaphore_new(initial_permits),
            debt: 0,
            line: Vec::new(),
            granted: Vec::new(),
            next: 0,
        };
        assert(s@.granted =~= Set::<u64>::empty());
        s
    }

    /// Start `owed` below zero: the first `owed` [`release`](Self::release) calls only
    /// cancel debt, so capacity stays at zero until releases outnumber them. This is how
    /// a gate expresses a reserve: capacity is what remains after the reserve is covered.
    pub fn in_debt(owed: usize) -> (s: Self)
        ensures
            s.wf(),
            s@ == Pool::of(-(owed as int)),
    {
        let s = DebtSemaphore {
            semaphore: semaphore_new(0),
            debt: owed,
            line: Vec::new(),
            granted: Vec::new(),
            next: 0,
        };
        assert(s@.granted =~= Set::<u64>::empty());
        s
    }

    /// Lower capacity by one: forget a free permit if there is one, otherwise record that
    /// one is owed.
    pub fn acquire(&mut self)
        requires
            old(self).wf(),
            Self::fits(old(self)@.balance - 1),
        ensures
            final(self).wf(),
            final(self)@ == old(self)@.moved(-1),
            old(self)@.keeps_places(final(self)@, None),
    {
        proof {
            law_places_are_kept(self@, -1);
        }
        if semaphore_forget(&mut self.semaphore, 1) == 0 {
            self.debt = self.debt + 1;
        }
        proof {
            lemma_nothing_to_settle(Pool { balance: old(self)@.balance - 1, ..old(self)@ });
            lemma_moved_wf(old(self)@, -1);
        }
    }

    /// Raise capacity by one: cancel a unit of debt if any is outstanding, otherwise set a
    /// permit aside for the first in line, or add it where nobody waits.
    pub fn release(&mut self)
        requires
            old(self).wf(),
            Self::fits(old(self)@.balance + 1),
        ensures
            final(self).wf(),
            final(self)@ == old(self)@.moved(1),
            old(self)@.keeps_places(final(self)@, None),
            old(self)@.balance == 0 && old(self)@.line.len() > 0 ==> final(self)@.granted
                == old(self)@.granted.insert(old(self)@.line[0]) && final(self)@.line
                == old(self)@.line.skip(1),
    {
        proof {
            law_places_are_kept(self@, 1);
            if self@.balance == 0 && self@.line.len() > 0 {
                law_the_first_in_line_is_served(self@);
            }
        }
        let ghost raised = Pool { balance: self@.balance + 1, ..self@ };
        proof {
            lemma_moved_wf(self@, 1);
        }
        if self.debt > 0 {
            self.debt = self.debt - 1;
            proof {
                lemma_nothing_to_settle(raised);
            }
        } else if self.line.len() > 0 {
            let ghost line = self.line@;
            let ghost granted = self.granted@;
            let first: u64 = self.line.remove(0);
            self.granted.push(first);
            proof {
                assert(line.contains(line[0]));
                assert(self.line@ =~= line.skip(1));
                assert(line.take(1) =~= seq![line[0]]);
                assert(granted.push(first).to_set() =~= granted.to_set().union(
                    line.take(1).to_set(),
                )) by {
                    assert forall|t: u64| #![auto]
                        granted.push(first).contains(t) <==> granted.contains(t) || t == first by {
                        if granted.contains(t) {
                            let i = choose|i: int| 0 <= i < granted.len() && granted[i] == t;
                            assert(granted.push(first)[i] == t);
                        }
                        assert(granted.push(first)[granted.len() as int] == first);
                    }
                    assert forall|t: u64| #![auto] line.take(1).contains(t) <==> t == first by {
                        assert(line.take(1)[0] == first);
                    }
                }
                assert(!granted.to_set().contains(first));
                assert(!granted.contains(first));
                assert forall|i: int, j: int|
                    0 <= i < self.granted@.len() && 0 <= j < self.granted@.len() && i
                        != j implies self.granted@[i] != self.granted@[j] by {
                    if i == granted.len() {
                        assert(granted.contains(granted[j]));
                    }
                    if j == granted.len() {
                        assert(granted.contains(granted[i]));
                    }
                }
            }
        } else {
            semaphore_add(&mut self.semaphore, 1);
            proof {
                lemma_nothing_to_settle(raised);
            }
        }
    }

    /// Ask for a permit, from place `place` or without one yet. `None` is a permit, taken
    /// out of the pool until it comes back through [`release`](Self::release); otherwise
    /// the place to wait at and to ask from again.
    pub fn ask(&mut self, place: Option<u64>) -> (place_after: Option<u64>)
        requires
            old(self).wf(),
            place matches Some(t) ==> old(self)@.has(t),
            place is None ==> old(self)@.next < u64::MAX,
        ensures
            final(self).wf(),
            place_after == old(self)@.place_after(place),
            final(self)@ == old(self)@.asked(place),
            old(self)@.keeps_places(final(self)@, place),
            place_after matches Some(t) ==> final(self)@.has(t),
    {
        proof {
            law_asking_and_leaving_keep_the_other_places(self@, place);
            lemma_asked_wf(self@, place);
        }
        match place {
            Some(t) => match find(&self.granted, t) {
                Some(i) => {
                    let ghost granted = self.granted@;
                    let _ = self.granted.remove(i);
                    proof {
                        lemma_taken_out(granted, i as int);
                    }
                    None
                },
                None => {
                    assert(self@.granted.remove(t) =~= self@.granted);
                    Some(t)
                },
            },
            None => {
                if semaphore_forget(&mut self.semaphore, 1) == 1 {
                    return None;
                }
                let t: u64 = self.next;
                self.line.push(t);
                self.next = t + 1;
                Some(t)
            },
        }
    }

    /// Whether there is a place left to give out: places are numbered, and never again the
    /// same.
    pub fn has_places(&self) -> (left: bool)
        ensures
            left <==> self@.next < u64::MAX,
    {
        self.next < u64::MAX
    }

    /// Whether a permit is set aside for place `t`.
    pub fn is_granted(&self, t: u64) -> (granted: bool)
        requires
            self.wf(),
        ensures
            granted <==> self@.granted.contains(t),
    {
        find(&self.granted, t).is_some()
    }

    /// Give place `t` up. Where a permit was set aside for it, that comes back.
    pub fn leave(&mut self, t: u64)
        requires
            old(self).wf(),
            old(self)@.has(t),
            old(self)@.granted.contains(t) ==> Self::fits(old(self)@.balance + 1),
        ensures
            final(self).wf(),
            final(self)@ == old(self)@.left(t),
            old(self)@.keeps_places(final(self)@, Some(t)),
    {
        proof {
            law_asking_and_leaving_keep_the_other_places(self@, Some(t));
            if !self@.granted.contains(t) {
                lemma_left_wf(self@, t);
            } else {
                lemma_asked_wf(self@, Some(t));
            }
        }
        match find(&self.granted, t) {
            Some(i) => {
                let ghost granted = self.granted@;
                let _ = self.granted.remove(i);
                proof {
                    lemma_taken_out(granted, i as int);
                }
                self.release();
            },
            None => match find(&self.line, t) {
                Some(i) => {
                    let ghost line = self.line@;
                    let _ = self.line.remove(i);
                    proof {
                        assert(line[line.index_of(t)] == t);
                        assert(line.index_of(t) == i);
                    }
                },
                None => {},
            },
        }
    }

    /// Permits free to take right now.
    pub fn available(&self) -> (n: usize)
        requires
            self.wf(),
        ensures
            n == self@.free(),
    {
        semaphore_available(&self.semaphore)
    }

    /// Permits owed because capacity was lowered below what is held.
    pub fn debt(&self) -> (n: usize)
        requires
            self.wf(),
        ensures
            n == self@.owed(),
    {
        self.debt
    }
}

/// Where no permit is free, or nobody waits, there is nothing to set aside.
proof fn lemma_nothing_to_settle(p: Pool)
    requires
        p.balance <= 0 || p.line.len() == 0,
    ensures
        p.settled() == p,
{
    assert(p.line.skip(0) =~= p.line);
    assert(p.line.take(0).to_set() =~= Set::<u64>::empty()) by {
        assert forall|t: u64| !p.line.take(0).contains(t) by {}
    }
    assert(p.granted.union(Set::empty()) =~= p.granted);
}

/// Setting permits aside makes a pool well-formed that was, but for permits that are free
/// while somebody waits.
proof fn lemma_settled_wf(p: Pool)
    requires
        (Pool { balance: 0, ..p }).wf(),
        DebtSemaphore::fits(p.settled().balance),
    ensures
        p.settled().wf(),
{
    let q = Pool { balance: 0, ..p };
    let k = p.wanted();
    let rest = p.line.skip(k);
    let first = p.line.take(k);
    assert(q.line == p.line && q.granted == p.granted);
    assert forall|i: int, j: int| 0 <= i < rest.len() && 0 <= j < rest.len() && i != j implies rest[i]
        != rest[j] by {
        assert(p.line[i + k] != p.line[j + k]);
    }
    assert forall|t: u64| #[trigger] rest.contains(t) implies t < p.next
        && !p.settled().granted.contains(t) by {
        let i = choose|i: int| 0 <= i < rest.len() && rest[i] == t;
        assert(p.line[i + k] == t);
        assert(q.line.contains(t));
        if first.contains(t) {
            let j = choose|j: int| 0 <= j < first.len() && first[j] == t;
            assert(p.line[j] == p.line[i + k]);
        }
    }
    assert forall|t: u64| #[trigger] p.settled().granted.contains(t) implies t < p.next by {
        if first.contains(t) {
            let j = choose|j: int| 0 <= j < first.len() && first[j] == t;
            assert(p.line[j] == t);
            assert(q.line.contains(t));
        } else {
            assert(q.granted.contains(t));
        }
    }
}

/// A pool stays well-formed when its capacity moves.
pub proof fn lemma_moved_wf(p: Pool, n: int)
    requires
        p.wf(),
        DebtSemaphore::fits(p.moved(n).balance),
    ensures
        p.moved(n).wf(),
{
    let q = Pool { balance: p.balance + n, ..p };
    let z = Pool { balance: 0, ..q };
    assert(z.line == p.line && z.granted == p.granted);
    assert(z.wf());
    lemma_settled_wf(q);
}

/// A pool stays well-formed when somebody asks for a permit.
pub proof fn lemma_asked_wf(p: Pool, place: Option<u64>)
    requires
        p.wf(),
        place is None ==> p.next < u64::MAX,
    ensures
        p.asked(place).wf(),
{
    let q = p.asked(place);
    if place is None && p.balance <= 0 {
        let t = p.next as u64;
        assert forall|u: u64| #[trigger] q.line.contains(u) implies u < q.next
            && !q.granted.contains(u) by {
            let i = choose|i: int| 0 <= i < q.line.len() && q.line[i] == u;
            if i < p.line.len() {
                assert(p.line[i] == u);
                assert(p.line.contains(u));
            }
        }
        assert forall|i: int, j: int|
            0 <= i < q.line.len() && 0 <= j < q.line.len() && i != j implies q.line[i]
            != q.line[j] by {
            if i == p.line.len() {
                assert(p.line.contains(p.line[j]));
            }
            if j == p.line.len() {
                assert(p.line.contains(p.line[i]));
            }
        }
    } else {
        assert(q.line == p.line);
        assert forall|u: u64| #[trigger] q.line.contains(u) implies u < q.next
            && !q.granted.contains(u) by {
            assert(p.line.contains(u));
        }
        assert forall|u: u64| #[trigger] q.granted.contains(u) implies u < q.next by {
            assert(p.granted.contains(u));
        }
    }
}

/// A pool stays well-formed when a place is given up.
pub proof fn lemma_left_wf(p: Pool, t: u64)
    requires
        p.wf(),
        p.has(t),
        DebtSemaphore::fits(p.left(t).balance),
    ensures
        p.left(t).wf(),
{
    let q = Pool { granted: p.granted.remove(t), ..p };
    assert(q.line == p.line);
    assert(q.wf()) by {
        assert forall|u: u64| #[trigger] q.line.contains(u) implies u < q.next
            && !q.granted.contains(u) by {
            assert(p.line.contains(u));
        }
        assert forall|u: u64| #[trigger] q.granted.contains(u) implies u < q.next by {
            assert(p.granted.contains(u));
        }
    }
    if p.granted.contains(t) {
        lemma_moved_wf(q, 1);
    } else {
        let i = p.line.index_of(t);
        assert(0 <= i < p.line.len() && p.line[i] == t);
        let l = p.left(t);
        assert forall|u: u64| #[trigger] l.line.contains(u) implies p.line.contains(u) by {
            let j = choose|j: int| 0 <= j < l.line.len() && l.line[j] == u;
            assert(p.line[if j < i { j } else { j + 1 }] == u);
        }
        assert forall|a: int, b: int|
            0 <= a < l.line.len() && 0 <= b < l.line.len() && a != b implies l.line[a]
            != l.line[b] by {
            assert(p.line[if a < i { a } else { a + 1 }] != p.line[if b < i { b } else { b + 1 }]);
        }
    }
}

/// Taking out one of several different numbers takes it out of their set.
proof fn lemma_taken_out(v: Seq<u64>, i: int)
    requires
        0 <= i < v.len(),
        v.no_duplicates(),
    ensures
        v.remove(i).to_set() == v.to_set().remove(v[i]),
        v.remove(i).no_duplicates(),
        v.to_set().contains(v[i]),
{
    assert(v.contains(v[i]));
    assert forall|t: u64| v.remove(i).contains(t) <==> v.contains(t) && t != v[i] by {
        if v.remove(i).contains(t) {
            let j = choose|j: int| 0 <= j < v.remove(i).len() && v.remove(i)[j] == t;
            assert(v[if j < i { j } else { j + 1 }] == t);
        }
        if v.contains(t) && t != v[i] {
            let j = choose|j: int| 0 <= j < v.len() && v[j] == t;
            assert(v.remove(i)[if j < i { j } else { j - 1 }] == t);
        }
    }
    assert(v.remove(i).to_set() =~= v.to_set().remove(v[i]));
}

/// Moving capacity up one at a time comes to the same as moving it up at once.
pub proof fn lemma_moved_on(p: Pool, n: int)
    requires
        p.line.len() > 0 ==> p.balance <= 0,
        n >= 0,
    ensures
        p.moved(n).moved(1) == p.moved(n + 1),
{
    let a = Pool { balance: p.balance + n, ..p };
    let b = Pool { balance: p.balance + n + 1, ..p };
    let k = a.wanted();
    let m = p.moved(n);
    let next = Pool { balance: m.balance + 1, ..m };
    let j = next.wanted();
    assert(m.line == p.line.skip(k));
    assert(b.wanted() == k + j);
    assert(m.line.skip(j) =~= p.line.skip(k + j));
    assert(p.granted.union(p.line.take(k).to_set()).union(m.line.take(j).to_set())
        =~= p.granted.union(p.line.take(k + j).to_set())) by {
        let all = p.line.take(k + j);
        let first = p.line.take(k);
        let second = m.line.take(j);
        assert forall|t: u64| #![auto]
            all.contains(t) <==> first.contains(t) || second.contains(t) by {
            if all.contains(t) {
                let i = choose|i: int| 0 <= i < all.len() && all[i] == t;
                if i < k {
                    assert(first[i] == t);
                } else {
                    assert(second[i - k] == t);
                }
            }
            if first.contains(t) {
                let i = choose|i: int| 0 <= i < first.len() && first[i] == t;
                assert(all[i] == t);
            }
            if second.contains(t) {
                let i = choose|i: int| 0 <= i < second.len() && second[i] == t;
                assert(all[i + k] == t);
            }
        }
    }
}

// ---- laws ----

/// Nobody gets ahead: while anybody is in line no permit is free, so someone without a place
/// is not served but joins the line at its end.
pub proof fn law_nobody_gets_ahead_of_the_line(p: Pool)
    requires
        p.wf(),
        p.line.len() > 0,
    ensures
        p.free() == 0,
        !p.serves(None),
        p.asked(None).line == p.line.push(p.next as u64),
        p.asked(None).balance == p.balance,
{
}

/// First come, first served: capacity that comes free without debt goes to the first in
/// line, and to nobody else.
pub proof fn law_the_first_in_line_is_served(p: Pool)
    requires
        p.wf(),
        p.line.len() > 0,
        p.balance == 0,
    ensures
        p.moved(1).line == p.line.skip(1),
        p.moved(1).granted == p.granted.insert(p.line[0]),
        p.moved(1).balance == 0,
        p.moved(1).serves(Some(p.line[0])),
        forall|t: u64| p.has(t) ==> p.moved(1).has(t),
{
    let line = p.line;
    assert(line.take(1) =~= seq![line[0]]);
    assert(line.take(1)[0] == line[0]);
    assert(p.granted.union(line.take(1).to_set()) =~= p.granted.insert(line[0]));
    assert forall|t: u64| p.has(t) implies p.moved(1).has(t) by {
        if line.contains(t) {
            let i = choose|i: int| 0 <= i < line.len() && line[i] == t;
            if i > 0 {
                assert(line.skip(1)[i - 1] == t);
            }
        }
    }
}

/// A place is kept for as long as whoever has it likes: however capacity moves, every place
/// stays in line or has a permit set aside for it.
pub proof fn law_places_are_kept(p: Pool, n: int)
    ensures
        p.keeps_places(p.moved(n), None),
{
    let q = Pool { balance: p.balance + n, ..p };
    let k = q.wanted();
    let line = p.line;
    assert forall|t: u64| p.has(t) implies #[trigger] p.moved(n).has(t) by {
        if line.contains(t) {
            let i = choose|i: int| 0 <= i < line.len() && line[i] == t;
            if i < k {
                assert(line.take(k)[i] == t);
            } else {
                assert(line.skip(k)[i - k] == t);
            }
        }
    }
}

/// Whoever asks for a permit or gives a place up takes nobody else's place, and whoever is
/// told to wait has one.
pub proof fn law_asking_and_leaving_keep_the_other_places(p: Pool, place: Option<u64>)
    requires
        place matches Some(t) ==> p.has(t),
    ensures
        p.keeps_places(p.asked(place), place),
        p.place_after(place) matches Some(t) ==> p.asked(place).has(t),
        place matches Some(t) ==> p.keeps_places(p.left(t), place),
{
    match place {
        Some(t) => {
            let q = Pool { granted: p.granted.remove(t), ..p };
            law_places_are_kept(q, 1);
            assert forall|u: u64| p.has(u) && u != t implies #[trigger] p.left(t).has(u) by {
                assert(q.has(u));
                if !p.granted.contains(t) {
                    let i = p.line.index_of(t);
                    assert(0 <= i < p.line.len() && p.line[i] == t);
                    if p.line.contains(u) {
                        let j = choose|j: int| 0 <= j < p.line.len() && p.line[j] == u;
                        assert(p.line.remove(i)[if j < i { j } else { j - 1 }] == u);
                    }
                }
            }
        },
        None => {
            let joined = p.line.push(p.next as u64);
            assert(joined[p.line.len() as int] == p.next as u64);
            assert forall|u: u64| p.line.contains(u) implies #[trigger] joined.contains(u) by {
                let j = choose|j: int| 0 <= j < p.line.len() && p.line[j] == u;
                assert(joined[j] == u);
            }
        },
    }
}

/// Giving up a place in line moves nobody: those who are left stand in the order in which they
/// stood, the line is shorter by exactly that place, and no permit changes hands.
pub proof fn law_giving_up_a_place_keeps_the_order_of_the_others(p: Pool, t: u64)
    requires
        p.line.no_duplicates(),
        p.line.contains(t),
        !p.granted.contains(t),
    ensures
        p.left(t).line == p.line.filter(|u: u64| u != t),
        p.left(t).line.len() == p.line.len() - 1,
        forall|i: int, j: int|
            0 <= i < j < p.line.len() && p.line[i] != t && p.line[j] != t ==> exists|a: int, b: int|
                0 <= a < b < p.left(t).line.len() && #[trigger] p.left(t).line[a] == p.line[i]
                    && #[trigger] p.left(t).line[b] == p.line[j],
        p.left(t).balance == p.balance,
        p.left(t).granted == p.granted,
        p.left(t).next == p.next,
{
    let line = p.line;
    let k = line.index_of(t);
    assert(0 <= k < line.len() && line[k] == t);
    let rest = p.left(t).line;
    assert(rest =~= line.remove(k));
    lemma_filtered_out(line, k, t);
    assert forall|i: int, j: int|
        0 <= i < j < line.len() && line[i] != t && line[j] != t implies exists|a: int, b: int|
        0 <= a < b < rest.len() && #[trigger] rest[a] == line[i] && #[trigger] rest[b]
            == line[j] by {
        let a = if i < k { i } else { i - 1 };
        let b = if j < k { j } else { j - 1 };
        assert(rest[a] == line[i] && rest[b] == line[j]);
    }
}

/// Taking a number out of several different ones leaves those that differ from it.
proof fn lemma_filtered_out(line: Seq<u64>, k: int, t: u64)
    requires
        0 <= k < line.len(),
        line[k] == t,
        line.no_duplicates(),
    ensures
        line.filter(|u: u64| u != t) == line.remove(k),
    decreases line.len(),
{
    reveal(Seq::filter);
    let front = line.drop_last();
    if k == line.len() - 1 {
        assert(!front.contains(t)) by {
            if front.contains(t) {
                let i = choose|i: int| 0 <= i < front.len() && front[i] == t;
                assert(line[i] == line[k]);
            }
        }
        lemma_nothing_filtered_out(front, t);
        assert(line.remove(k) =~= front);
    } else {
        assert(front[k] == t);
        lemma_filtered_out(front, k, t);
        assert(line.last() != t);
        assert(line.remove(k) =~= front.remove(k).push(line.last()));
    }
}

proof fn lemma_nothing_filtered_out(line: Seq<u64>, t: u64)
    requires
        !line.contains(t),
    ensures
        line.filter(|u: u64| u != t) == line,
    decreases line.len(),
{
    reveal(Seq::filter);
    if line.len() > 0 {
        let front = line.drop_last();
        assert(line[line.len() - 1] == line.last());
        assert(!front.contains(t)) by {
            if front.contains(t) {
                let i = choose|i: int| 0 <= i < front.len() && front[i] == t;
                assert(line[i] == t);
            }
        }
        lemma_nothing_filtered_out(front, t);
        assert(front.push(line.last()) =~= line);
    } else {
        assert(line.filter(|u: u64| u != t) =~= line);
    }
}

/// A permit set aside for a place that is given up is there for the others: it pays a debt
/// off, or is set aside for the first in line, or is free where nobody waits, and nobody else
/// loses theirs.
pub proof fn law_a_permit_given_up_serves_the_next(p: Pool, t: u64)
    requires
        p.granted.contains(t),
    ensures
        p.left(t).next == p.next,
        p.balance < 0 ==> p.left(t).balance == p.balance + 1 && p.left(t).line == p.line && p.left(
            t,
        ).granted == p.granted.remove(t),
        p.balance == 0 && p.line.len() > 0 ==> p.left(t).balance == 0 && p.left(t).line
            == p.line.skip(1) && p.left(t).granted == p.granted.remove(t).insert(p.line[0]),
        p.line.len() == 0 ==> p.left(t).balance == p.balance + 1 && p.left(t).line == p.line
            && p.left(t).granted == p.granted.remove(t),
{
    let q = Pool { granted: p.granted.remove(t), ..p };
    assert(p.left(t) == q.moved(1));
    law_capacity_goes_to_the_line_in_order(q, 1);
    if p.balance == 0 && p.line.len() > 0 {
        assert(q.moved(1).granted =~= q.granted.insert(p.line[0]));
    } else if p.balance < 0 || p.line.len() == 0 {
        assert(q.moved(1).granted =~= q.granted);
        assert(q.moved(1).line =~= q.line);
    }
}

/// Capacity that moves by `n` is first held against the debt, then goes to those in line, from
/// the front and to one each, and the rest is free. Nobody who has a permit set aside loses
/// it, and nobody is moved in line.
pub proof fn law_capacity_goes_to_the_line_in_order(p: Pool, n: int)
    ensures
        p.moved(n).next == p.next,
        p.balance + n <= 0 ==> p.moved(n).balance == p.balance + n && p.moved(n).line == p.line,
        0 <= p.balance + n <= p.line.len() ==> p.moved(n).balance == 0 && p.moved(n).line
            == p.line.skip(p.balance + n),
        p.balance + n >= p.line.len() ==> p.moved(n).balance == p.balance + n - p.line.len()
            && p.moved(n).line.len() == 0,
        forall|t: u64| #[trigger]
            p.moved(n).granted.contains(t) <==> p.granted.contains(t) || exists|i: int|
                0 <= i < p.line.len() && i < p.balance + n && #[trigger] p.line[i] == t,
{
    let q = Pool { balance: p.balance + n, ..p };
    let k = q.wanted();
    let line = p.line;
    assert(line.skip(0) =~= line);
    assert(line.skip(line.len() as int).len() == 0);
    assert forall|t: u64| #[trigger]
        p.moved(n).granted.contains(t) <==> p.granted.contains(t) || exists|i: int|
            0 <= i < p.line.len() && i < p.balance + n && #[trigger] p.line[i] == t by {
        let first = line.take(k);
        if first.contains(t) {
            let i = choose|i: int| 0 <= i < first.len() && first[i] == t;
            assert(line[i] == t);
        }
        if exists|i: int| 0 <= i < p.line.len() && i < p.balance + n && #[trigger] p.line[i] == t {
            let i = choose|i: int|
                0 <= i < p.line.len() && i < p.balance + n && #[trigger] p.line[i] == t;
            assert(first[i] == t);
        }
    }
}

/// Whoever asks without a place takes one free permit where there is one and joins the end of
/// the line where there is none, at a place that nobody had before.
pub proof fn law_a_newcomer_takes_a_free_permit_or_joins_the_end(p: Pool)
    ensures
        p.serves(None) <==> p.balance > 0,
        p.asked(None).granted == p.granted,
        p.balance > 0 ==> p.asked(None).balance == p.balance - 1 && p.asked(None).line == p.line
            && p.asked(None).next == p.next && p.place_after(None) is None,
        p.balance <= 0 ==> p.asked(None).balance == p.balance && p.asked(None).line
            == p.line.push(p.next as u64) && p.asked(None).next == p.next + 1 && p.place_after(None)
            == Some(p.next as u64),
        p.wf() && p.next < u64::MAX ==> !p.line.contains(p.next as u64) && !p.granted.contains(
            p.next as u64,
        ),
{
    let t = p.next as u64;
    if p.wf() && p.next < u64::MAX && (p.line.contains(t) || p.granted.contains(t)) {
        assert(t < p.next);
    }
}

/// Whoever asks from a place gets the permit that is set aside for it, and stays where they
/// are, with nothing changed, where there is none yet.
pub proof fn law_a_place_is_served_by_the_permit_set_aside_for_it(p: Pool, t: u64)
    ensures
        p.serves(Some(t)) <==> p.granted.contains(t),
        p.granted.contains(t) ==> p.place_after(Some(t)) is None,
        !p.granted.contains(t) ==> p.place_after(Some(t)) == Some(t) && p.asked(Some(t)) == p,
        p.asked(Some(t)).balance == p.balance,
        p.asked(Some(t)).line == p.line,
        p.asked(Some(t)).next == p.next,
        forall|u: u64|
            p.asked(Some(t)).granted.contains(u) <==> p.granted.contains(u) && u != t,
{
    if !p.granted.contains(t) {
        assert(p.asked(Some(t)).granted =~= p.granted);
    }
}

/// A pool is in order where its balance is one that a semaphore and a debt can count, nothing
/// is free while anybody waits, nobody is in line twice or both in line and served, and every
/// place was given out.
pub proof fn law_a_pool_in_order_keeps_a_fair_line(p: Pool)
    ensures
        p.wf() <==> {
            &&& -(usize::MAX as int) <= p.balance <= MAX_PERMITS
            &&& p.line.len() > 0 ==> p.balance <= 0
            &&& p.line.no_duplicates()
            &&& forall|t: u64| #[trigger]
                p.line.contains(t) ==> t < p.next && !p.granted.contains(t)
            &&& forall|t: u64| #[trigger] p.granted.contains(t) ==> t < p.next
            &&& 0 <= p.next <= u64::MAX
        },
{
}

/// A pool starts with its balance and nothing else: what is above zero is free, what is below
/// it is owed.
pub proof fn law_a_pool_starts_with_its_balance(balance: int)
    ensures
        Pool::of(balance).balance == balance,
        Pool::of(balance).line.len() == 0,
        Pool::of(balance).granted == Set::<u64>::empty(),
        Pool::of(balance).next == 0,
        balance >= 0 ==> Pool::of(balance).free() == balance && Pool::of(balance).owed() == 0,
        balance <= 0 ==> Pool::of(balance).free() == 0 && Pool::of(balance).owed() == -balance,
{
}

/// What is above zero is free and what is below it is owed, whoever waits.
pub proof fn law_a_balance_is_what_is_free_less_what_is_owed(p: Pool)
    ensures
        p.free() - p.owed() == p.balance,
        p.free() == 0 || p.owed() == 0,
        p.free() == free_of(p.balance) && p.owed() == owed_of(p.balance),
{
}

/// A place is there while it is in line or has a permit set aside for it, and places are kept
/// where every one of them, but for the one named, is still there.
pub proof fn law_a_place_is_in_line_or_has_a_permit(
    p: Pool,
    after: Pool,
    but: Option<u64>,
    t: u64,
)
    ensures
        p.has(t) <==> p.line.contains(t) || p.granted.contains(t),
        p.keeps_places(after, but) && but != Some(t) && (p.line.contains(t) || p.granted.contains(
            t,
        )) ==> after.line.contains(t) || after.granted.contains(t),
{
    if p.keeps_places(after, but) && but != Some(t) && p.has(t) {
        assert(after.has(t));
    }
}

/// The line stays in the order of arrival, whatever happens: places are numbered as they are
/// given out, and the smaller number stands in front after capacity moved, after someone asked
/// and after someone left.
pub proof fn law_the_line_stays_in_the_order_of_arrival(
    p: Pool,
    n: int,
    place: Option<u64>,
    t: u64,
)
    requires
        0 <= p.next < u64::MAX,
        forall|i: int, j: int| 0 <= i < j < p.line.len() ==> p.line[i] < p.line[j],
        forall|i: int| 0 <= i < p.line.len() ==> p.line[i] < p.next,
        p.has(t),
    ensures
        forall|i: int, j: int|
            0 <= i < j < p.moved(n).line.len() ==> p.moved(n).line[i] < p.moved(n).line[j],
        forall|i: int, j: int|
            0 <= i < j < p.asked(place).line.len() ==> p.asked(place).line[i] < p.asked(
                place,
            ).line[j],
        forall|i: int, j: int|
            0 <= i < j < p.left(t).line.len() ==> p.left(t).line[i] < p.left(t).line[j],
{
    if !p.granted.contains(t) {
        let k = p.line.index_of(t);
        assert(0 <= k < p.line.len() && p.line[k] == t);
    }
}

/// First come, first served, over any two who wait: however capacity moves, whoever stands
/// behind gets no permit before whoever stands in front.
pub proof fn law_nobody_is_served_before_those_in_front(p: Pool, n: int, i: int, j: int)
    requires
        p.line.no_duplicates(),
        0 <= i < j < p.line.len(),
        !p.granted.contains(p.line[j]),
        p.moved(n).granted.contains(p.line[j]),
    ensures
        p.moved(n).granted.contains(p.line[i]),
{
    law_capacity_goes_to_the_line_in_order(p, n);
    let k = choose|k: int|
        0 <= k < p.line.len() && k < p.balance + n && #[trigger] p.line[k] == p.line[j];
    assert(k == j);
    assert(p.line[i] == p.line[i]);
}

/// Debt comes first: while any is outstanding, capacity that comes back cancels it and
/// nobody in line gets anything.
pub proof fn law_debt_is_paid_before_the_line(p: Pool)
    requires
        p.balance < 0,
    ensures
        p.moved(1) == (Pool { balance: p.balance + 1, ..p }),
{
    lemma_nothing_to_settle(Pool { balance: p.balance + 1, ..p });
}

/// A place that is given up leaves no trace: a permit set aside for it goes on to the next
/// in line, or back to the pool, and one still waiting is taken out of the line.
pub proof fn law_a_place_given_up_leaves_no_trace(p: Pool, t: u64)
    requires
        p.wf(),
        p.has(t),
    ensures
        !p.left(t).has(t),
        p.left(t).balance - p.left(t).line.len() == p.balance - p.line.len() + 1,
{
    let line = p.line;
    if p.granted.contains(t) {
        assert(!line.contains(t));
        let back = Pool { balance: p.balance + 1, granted: p.granted.remove(t), ..p };
        let k = back.wanted();
        assert forall|i: int| 0 <= i < k implies #[trigger] line.take(k)[i] != t by {
            assert(line.contains(line[i]));
        }
        assert(!line.skip(k).contains(t)) by {
            if line.skip(k).contains(t) {
                let i = choose|i: int| 0 <= i < line.skip(k).len() && line.skip(k)[i] == t;
                assert(line[i + k] == t);
            }
        }
    } else {
        let i = line.index_of(t);
        assert(0 <= i < line.len() && line[i] == t);
        let rest = line.remove(i);
        assert(!rest.contains(t)) by {
            if rest.contains(t) {
                let j = choose|j: int| 0 <= j < rest.len() && rest[j] == t;
                assert(line[if j < i { j } else { j + 1 }] == t);
            }
        }
    }
}

/// What moves a pool's capacity.
pub enum Shift {
    Release,
    Acquire,
}

/// The pool after a run of shifts, as [`DebtSemaphore::release`] and
/// [`DebtSemaphore::acquire`] make them.
pub open spec fn pool_after(start: Pool, shifts: Seq<Shift>) -> Pool
    decreases shifts.len(),
{
    if shifts.len() == 0 {
        start
    } else {
        match shifts.last() {
            Shift::Release => pool_after(start, shifts.drop_last()).moved(1),
            Shift::Acquire => pool_after(start, shifts.drop_last()).moved(-1),
        }
    }
}

/// How many of some shifts are releases.
pub open spec fn releases(shifts: Seq<Shift>) -> nat
    decreases shifts.len(),
{
    if shifts.len() == 0 {
        0
    } else {
        releases(shifts.drop_last()) + (if shifts.last() is Release { 1nat } else { 0nat })
    }
}

/// How many of some shifts are acquires.
pub open spec fn acquires(shifts: Seq<Shift>) -> nat
    decreases shifts.len(),
{
    if shifts.len() == 0 {
        0
    } else {
        acquires(shifts.drop_last()) + (if shifts.last() is Acquire { 1nat } else { 0nat })
    }
}

/// After any shifts the balance, less those in line, is what it was at the start, plus the
/// releases, less the acquires. Where nobody waits, that is the balance itself.
pub proof fn law_the_balance_is_releases_less_acquires(start: Pool, shifts: Seq<Shift>)
    ensures
        ({
            let end = pool_after(start, shifts);
            &&& end.balance - end.line.len() == start.balance - start.line.len() + releases(shifts)
                - acquires(shifts)
            &&& end.line.len() <= start.line.len()
        }),
        releases(shifts) + acquires(shifts) == shifts.len(),
        start.line.len() == 0 ==> pool_after(start, shifts).balance == start.balance + releases(
            shifts,
        ) - acquires(shifts),
    decreases shifts.len(),
{
    if shifts.len() > 0 {
        law_the_balance_is_releases_less_acquires(start, shifts.drop_last());
    }
}

} // verus!
