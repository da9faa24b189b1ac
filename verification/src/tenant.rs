//! Who held a gate shut: shut-time, split between the requests that were on the server
//! while it lasted.
//!
//! A gate that withholds readiness makes every caller wait. An [`Accumulator`] measures
//! how long it does, and splits each stretch evenly between the occupiers, the requests in
//! flight at that time, by advancing a *meter* by one occupier's share. Each occupier
//! remembers where the meter stood when it last looked and is billed for the difference.
//! Bills never exceed what was measured: what is attributed stays within what accumulated.

use core::time::Duration;
use vstd::prelude::*;

use crate::duration::nanos_word;
use crate::ready::Readiness;

verus! {

/// The word that stands for an open gate.
pub const OPEN: u64 = u64::MAX;

/// A gate: open, or shut since a point in time (nanoseconds since the epoch).
#[derive(Clone, Copy, Debug, PartialEq, Eq, Structural)]
pub enum Gate {
    Open,
    Shut { since: u64 },
}

impl Gate {
    /// What a word stands for.
    pub open spec fn of(word: u64) -> Gate {
        if word == OPEN { Gate::Open } else { Gate::Shut { since: word } }
    }

    /// The word for a gate. The last time there is doubles as the open word, so a gate
    /// shut then is noted as shut one nanosecond earlier.
    pub open spec fn word(self) -> u64 {
        match self {
            Gate::Open => OPEN,
            Gate::Shut { since } => if since < OPEN { since } else { (OPEN - 1) as u64 },
        }
    }

    pub fn decode(word: u64) -> (gate: Gate)
        ensures
            gate == Gate::of(word),
    {
        if word == OPEN {
            Gate::Open
        } else {
            Gate::Shut { since: word }
        }
    }

    pub fn encode(self) -> (word: u64)
        ensures
            word == self.word(),
    {
        match self {
            Gate::Open => OPEN,
            Gate::Shut { since } => if since < OPEN {
                since
            } else {
                OPEN - 1
            },
        }
    }
}

/// Something that a tenant sent.
pub trait Tenant {
    /// Who sent it.
    fn tenant(&self) -> &str;
}

/// The measurements of one gate, in nanoseconds. Totals are 64-bit counts that wrap.
#[derive(Clone, Copy)]
pub struct Accumulator {
    /// The meter: what one occupier present all along would owe.
    pub rate: u64,
    /// Requests on the server.
    pub inflight: u64,
    /// Shut-time that had occupiers to answer for it.
    pub accumulated: u64,
    /// How much of it has been billed.
    pub attributed: u64,
    /// Shut-time that had nobody to answer for it.
    pub unattributed: u64,
    /// Open or shut, as a word.
    pub gate: u64,
}

impl Accumulator {
    /// An open gate with nothing measured and nobody on the server.
    pub open spec fn fresh() -> Accumulator {
        Accumulator {
            rate: 0,
            inflight: 0,
            accumulated: 0,
            attributed: 0,
            unattributed: 0,
            gate: OPEN,
        }
    }

    /// After a further `dt` of shut-time: every occupier owes an equal share of it, and
    /// without occupiers it is nobody's.
    pub open spec fn accrued(self, dt: u64) -> Accumulator {
        if self.inflight == 0 {
            Accumulator { unattributed: self.unattributed.wrapping_add(dt), ..self }
        } else {
            Accumulator {
                rate: self.rate.wrapping_add((dt / self.inflight) as u64),
                accumulated: self.accumulated.wrapping_add(dt),
                ..self
            }
        }
    }

    /// After the running shut span, if any, is banked up to `now`.
    pub open spec fn flushed(self, now: u64) -> Accumulator {
        match Gate::of(self.gate) {
            Gate::Open => self,
            Gate::Shut { since } => (Accumulator {
                gate: (Gate::Shut { since: now }).word(),
                ..self
            }).accrued(now.saturating_sub(since)),
        }
    }

    /// After this gate is found shut at `now`; a gate that is shut already stays shut since
    /// when it was.
    pub open spec fn shut_at(self, now: u64) -> Accumulator {
        match Gate::of(self.gate) {
            Gate::Open => Accumulator { gate: (Gate::Shut { since: now }).word(), ..self },
            Gate::Shut { .. } => self,
        }
    }

    /// After this gate is found open at `now`: the span that ends is banked.
    pub open spec fn opened_at(self, now: u64) -> Accumulator {
        match Gate::of(self.gate) {
            Gate::Open => self,
            Gate::Shut { since } => (Accumulator { gate: OPEN, ..self }).accrued(
                now.saturating_sub(since),
            ),
        }
    }

    /// After one more occupier arrived at `now`.
    pub open spec fn entered(self, now: u64) -> Accumulator {
        let banked = self.flushed(now);
        Accumulator { inflight: banked.inflight.wrapping_add(1), ..banked }
    }

    /// After one occupier left at `now`.
    pub open spec fn left(self, now: u64) -> Accumulator {
        let banked = self.flushed(now);
        Accumulator { inflight: banked.inflight.wrapping_sub(1), ..banked }
    }

    /// What has accumulated and is not billed yet.
    pub open spec fn room(self) -> u64 {
        self.accumulated.saturating_sub(self.attributed)
    }

    /// How much of a claim of `blame` is granted.
    pub open spec fn credit(self, blame: u64) -> u64 {
        if blame <= self.room() { blame } else { self.room() }
    }

    /// After a claim of `blame` was granted as far as there is room.
    pub open spec fn charged(self, blame: u64) -> Accumulator {
        Accumulator { attributed: (self.attributed + self.credit(blame)) as u64, ..self }
    }

    pub fn new() -> (acc: Self)
        ensures
            acc == Accumulator::fresh(),
    {
        Accumulator {
            rate: 0,
            inflight: 0,
            accumulated: 0,
            attributed: 0,
            unattributed: 0,
            gate: Gate::Open.encode(),
        }
    }

    /// A time `elapsed` after the epoch, as the nanosecond count that spans are kept in.
    pub fn nanos(elapsed: Duration) -> (now: u64)
        ensures
            now == crate::duration::nanos(elapsed) % crate::duration::word(),
    {
        nanos_word(elapsed)
    }

    /// Bank the running shut span up to `now` and restart it there.
    pub fn flush(&mut self, now: u64)
        ensures
            *final(self) == old(self).flushed(now),
    {
        if let Gate::Shut { since } = Gate::decode(self.gate) {
            self.gate = (Gate::Shut { since: now }).encode();
            self.accrue_nanos(now.saturating_sub(since));
        }
    }

    /// Note that this gate is shut.
    pub fn shut(&mut self, now: u64)
        ensures
            *final(self) == old(self).shut_at(now),
    {
        if self.gate == Gate::Open.encode() {
            self.gate = (Gate::Shut { since: now }).encode();
        }
    }

    /// Note that this gate is open, and bank the span that ends.
    pub fn open(&mut self, now: u64)
        ensures
            *final(self) == old(self).opened_at(now),
    {
        let gate = Gate::decode(self.gate);
        self.gate = Gate::Open.encode();
        if let Gate::Shut { since } = gate {
            self.accrue_nanos(now.saturating_sub(since));
        }
    }

    fn accrue_nanos(&mut self, dt: u64)
        ensures
            *final(self) == old(self).accrued(dt),
    {
        match dt.checked_div(self.inflight) {
            Some(share) => {
                self.rate = self.rate.wrapping_add(share);
                self.accumulated = self.accumulated.wrapping_add(dt);
            },
            None => {
                self.unattributed = self.unattributed.wrapping_add(dt);
            },
        }
    }

    /// Split `dt` of shut-time between the occupiers.
    pub fn accrue(&mut self, dt: Duration)
        ensures
            *final(self) == old(self).accrued(
                (crate::duration::nanos(dt) % crate::duration::word()) as u64,
            ),
    {
        let dt: u64 = nanos_word(dt);
        self.accrue_nanos(dt);
    }

    fn attribute_nanos(&mut self, blame: u64) -> (credit: u64)
        ensures
            credit == old(self).credit(blame),
            *final(self) == old(self).charged(blame),
    {
        let room: u64 = self.accumulated.saturating_sub(self.attributed);
        let credit: u64 = if blame <= room {
            blame
        } else {
            room
        };
        self.attributed = self.attributed + credit;
        credit
    }

    /// Bill up to `blame`, as far as there is unbilled shut-time, and say how much it was.
    pub fn attribute(&mut self, blame: Duration) -> (credit: Duration)
        ensures
            crate::duration::nanos(credit) == old(self).credit(
                (crate::duration::nanos(blame) % crate::duration::word()) as u64,
            ),
            *final(self) == old(self).charged(
                (crate::duration::nanos(blame) % crate::duration::word()) as u64,
            ),
    {
        let blame: u64 = nanos_word(blame);
        Duration::from_nanos(self.attribute_nanos(blame))
    }

    /// An occupier arrives; returns where the meter stands for it.
    pub fn enter(&mut self, now: u64) -> (seen: u64)
        ensures
            *final(self) == old(self).entered(now),
            seen == final(self).rate,
    {
        self.flush(now);
        self.inflight = self.inflight.wrapping_add(1);
        self.rate
    }

    /// An occupier leaves.
    pub fn leave(&mut self, now: u64)
        ensures
            *final(self) == old(self).left(now),
    {
        self.flush(now);
        self.inflight = self.inflight.wrapping_sub(1);
    }
}

// ---- blame ----

/// Where a bill goes once its request is done.
pub trait Report: Clone {
    /// The bills that were handed in through this value, in order: whose, and how much. What
    /// it is of a value is for the implementation to say.
    open spec fn log(&self) -> Seq<(Seq<char>, Duration)> {
        arbitrary()
    }

    /// Hand in the bill of `tenant`.
    fn report(&mut self, tenant: &str, blame: Duration)
        ensures
            final(self).log() == old(self).log().push((tenant@, blame)),
    ;
}

/// One occupier's account: how far it has followed the meter, and what it owes so far.
#[derive(Clone, Copy)]
pub struct Account {
    pub seen: u64,
    pub owed: u64,
}

impl Account {
    /// What the meter has moved by since this account last followed it.
    pub open spec fn share(self, acc: Accumulator) -> u64 {
        acc.rate.wrapping_sub(self.seen)
    }

    /// This account after it caught up with the meter of `acc`.
    pub open spec fn drawn(self, acc: Accumulator) -> Account {
        Account {
            seen: acc.rate,
            owed: (self.owed + acc.credit(self.share(acc))) as u64,
        }
    }

    /// What it owes is part of what `acc` has billed.
    pub open spec fn within(self, acc: Accumulator) -> bool {
        self.owed <= acc.attributed
    }
}

/// A request on the server and what its tenant owes for it.
pub struct Blame<R: Report> {
    report: R,
    tenant: String,
    account: Account,
    reported: bool,
}

impl<R: Report> Blame<R> {
    pub closed spec fn account(self) -> Account {
        self.account
    }

    pub closed spec fn tenant(self) -> Seq<char> {
        self.tenant@
    }

    pub closed spec fn reported(self) -> bool {
        self.reported
    }

    /// Where the bill will go.
    pub closed spec fn reporter(self) -> R {
        self.report
    }

    /// `after` is this request later on, with nothing handed in meanwhile.
    pub open spec fn stays(self, after: Blame<R>) -> bool {
        &&& after.tenant() == self.tenant()
        &&& after.reporter() == self.reporter()
        &&& after.reported() == self.reported()
    }

    /// `after` is this request once `bill` was handed in for its tenant: one call, and the
    /// first.
    pub open spec fn hands_in(self, bill: Duration, after: Blame<R>) -> bool {
        &&& !self.reported()
        &&& after.tenant() == self.tenant()
        &&& after.reported()
        &&& after.reporter().log() == self.reporter().log().push((self.tenant(), bill))
    }

    /// Catch up with the meter: whatever it moved by is owed, as far as there is unbilled
    /// shut-time to owe.
    pub fn draw(&mut self, acc: &mut Accumulator)
        requires
            old(self).account().within(*old(acc)),
        ensures
            final(self).account() == old(self).account().drawn(*old(acc)),
            old(self).stays(*final(self)),
            final(self).account().within(*final(acc)),
            *final(acc) == old(acc).charged(old(self).account().share(*old(acc))),
    {
        let share: u64 = acc.rate.wrapping_sub(self.account.seen);
        if share == 0 {
            return;
        }
        self.account.seen = acc.rate;
        let credit: u64 = acc.attribute_nanos(share);
        self.account.owed = self.account.owed + credit;
    }

    /// Leave the server at `now`, settle up and report. Returns the bill as reported; a
    /// request that has reported before does nothing and has no bill.
    pub fn finalize(&mut self, acc: &mut Accumulator, now: u64) -> (bill: Option<Duration>)
        requires
            old(self).account().within(*old(acc)),
        ensures
            final(self).reported(),
            final(self).account().within(*final(acc)),
            bill is Some <==> !old(self).reported(),
            old(self).reported() ==> *final(self) == *old(self) && *final(acc) == *old(acc),
            bill matches Some(d) ==> {
                let gone = old(acc).left(now);
                &&& final(self).account() == old(self).account().drawn(gone)
                &&& *final(acc) == gone.charged(old(self).account().share(gone))
                &&& crate::duration::nanos(d) == final(self).account().owed
                &&& old(self).hands_in(d, *final(self))
            },
    {
        if self.reported {
            return None;
        }
        self.reported = true;
        acc.leave(now);
        self.draw(acc);
        let bill = Duration::from_nanos(self.account.owed);
        self.report.report(self.tenant.as_str(), bill);
        Some(bill)
    }
}

// ---- the reporter ----

/// Measures one gate and reports to `R` what each request owed.
pub struct TenantReporter<R: Report> {
    pub acc: Accumulator,
    pub report: R,
}

impl<R: Report> TenantReporter<R> {
    /// A reporter of an open gate with nothing measured.
    pub fn new(report: R) -> (r: Self)
        ensures
            r.acc == Accumulator::fresh(),
            r.report == report,
    {
        TenantReporter { acc: Accumulator::new(), report }
    }

    /// A request of `tenant` is on the server from `now` on. It owes only for what the
    /// meter moves by from here.
    pub fn admit_request(&mut self, tenant: &str, now: u64) -> (blame: Blame<R>)
        ensures
            final(self).acc == old(self).acc.entered(now),
            final(self).report == old(self).report,
            cloned(old(self).report, blame.reporter()),
            blame.tenant() == tenant@,
            blame.account() == (Account { seen: final(self).acc.rate, owed: 0 }),
            !blame.reported(),
    {
        let seen: u64 = self.acc.enter(now);
        Blame {
            report: self.report.clone(),
            tenant: tenant.to_owned(),
            account: Account { seen, owed: 0 },
            reported: false,
        }
    }

    /// Whether this gate is shut.
    pub fn shut(&self) -> (shut: bool)
        ensures
            shut <==> Gate::of(self.acc.gate) is Shut,
    {
        match Gate::decode(self.acc.gate) {
            Gate::Shut { .. } => true,
            Gate::Open => false,
        }
    }

    /// Bank the running span up to `now`, so that the totals can be read.
    pub fn settle(&mut self, now: u64)
        ensures
            final(self).acc == old(self).acc.flushed(now),
            final(self).report == old(self).report,
    {
        self.acc.flush(now);
    }

    /// Requests on the server.
    pub fn inflight(&self) -> (n: u64)
        ensures
            n == self.acc.inflight,
    {
        self.acc.inflight
    }

    /// The shut-time that had occupiers.
    pub fn accumulated(&self) -> (d: Duration)
        ensures
            crate::duration::nanos(d) == self.acc.accumulated,
    {
        Duration::from_nanos(self.acc.accumulated)
    }

    /// How much of it has been billed.
    pub fn attributed(&self) -> (d: Duration)
        ensures
            crate::duration::nanos(d) == self.acc.attributed,
    {
        Duration::from_nanos(self.acc.attributed)
    }

    /// The shut-time that had nobody to answer for it.
    pub fn unattributed(&self) -> (d: Duration)
        ensures
            crate::duration::nanos(d) == self.acc.unattributed,
    {
        Duration::from_nanos(self.acc.unattributed)
    }

    /// What an occupier present all along would owe.
    pub fn meter(&self) -> (d: Duration)
        ensures
            crate::duration::nanos(d) == self.acc.rate,
    {
        Duration::from_nanos(self.acc.rate)
    }

    /// Measure how long `inner` withholds readiness.
    pub fn layer<S>(&self, inner: S) -> (service: TenantReportService<S>)
        ensures
            service.inner == inner,
    {
        TenantReportService { inner }
    }
}

// ---- the service ----

/// An inner service whose readiness is what a reporter measures.
pub struct TenantReportService<S> {
    pub inner: S,
}

impl<S: Clone> Clone for TenantReportService<S> {
    fn clone(&self) -> (service: Self)
        ensures
            cloned(self.inner, service.inner),
    {
        TenantReportService { inner: self.inner.clone() }
    }
}

impl<S> TenantReportService<S> {
    /// The inner service was probed at `now`: note what that says about its gate, and pass
    /// the answer on untouched.
    pub fn poll_ready<R: Report, E>(
        &mut self,
        reporter: &mut TenantReporter<R>,
        now: u64,
        probe: Readiness<E>,
    ) -> (ready: Readiness<E>)
        ensures
            ready == probe,
            final(self).inner == old(self).inner,
            final(reporter).report == old(reporter).report,
            final(reporter).acc == match probe {
                Readiness::Pending => old(reporter).acc.flushed(now).shut_at(now),
                _ => old(reporter).acc.flushed(now).opened_at(now),
            },
    {
        reporter.acc.flush(now);
        match probe {
            Readiness::Pending => reporter.acc.shut(now),
            Readiness::Ready => reporter.acc.open(now),
            Readiness::Failed(_) => reporter.acc.open(now),
        }
        probe
    }

    /// A request is handed to the inner service at `now`: its sender is an occupier until
    /// the future is done, and the bill is theirs.
    pub fn call<R: Report, Req: Tenant>(
        &mut self,
        reporter: &mut TenantReporter<R>,
        now: u64,
        req: &Req,
    ) -> (future: ReportFuture<R>)
        ensures
            final(self).inner == old(self).inner,
            final(reporter).report == old(reporter).report,
            final(reporter).acc == old(reporter).acc.entered(now),
            !future.blame().reported(),
            future.blame().account() == (Account { seen: final(reporter).acc.rate, owed: 0 }),
            cloned(old(reporter).report, future.blame().reporter()),
            exists|name: &str| #[trigger]
                call_ensures(Req::tenant, (req,), name) && future.blame().tenant() == name@,
    {
        let name = req.tenant();
        assert(call_ensures(Req::tenant, (req,), name));
        let blame = reporter.admit_request(name, now);
        ReportFuture { blame }
    }
}

/// What a request on the server carries along: its blame.
pub struct ReportFuture<R: Report> {
    blame: Blame<R>,
}

impl<R: Report> ReportFuture<R> {
    pub closed spec fn blame(self) -> Blame<R> {
        self.blame
    }

    /// The inner future was polled at `now`: catch up with the meter, and if it is done,
    /// leave and report. Returns the bill then. A request that has reported before does
    /// nothing and has no bill.
    pub fn poll(&mut self, acc: &mut Accumulator, now: u64, done: bool) -> (bill: Option<Duration>)
        requires
            old(self).blame().account().within(*old(acc)),
        ensures
            final(self).blame().account().within(*final(acc)),
            bill is Some <==> done && !old(self).blame().reported(),
            old(self).blame().reported() ==> *final(self) == *old(self) && *final(acc) == *old(acc),
            !old(self).blame().reported() ==> {
                let b = old(self).blame();
                let caught_up = b.account().drawn(*old(acc));
                let charged = old(acc).charged(b.account().share(*old(acc)));
                if done {
                    let gone = charged.left(now);
                    &&& final(self).blame().account() == caught_up.drawn(gone)
                    &&& *final(acc) == gone.charged(caught_up.share(gone))
                    &&& crate::duration::nanos(bill->0) == caught_up.drawn(gone).owed
                    &&& b.hands_in(bill->0, final(self).blame())
                } else {
                    &&& final(self).blame().account() == caught_up
                    &&& *final(acc) == charged
                    &&& b.stays(final(self).blame())
                }
            },
    {
        if self.blame.reported {
            return None;
        }
        self.blame.draw(acc);
        if done {
            self.blame.finalize(acc, now)
        } else {
            None
        }
    }

    /// The request is dropped at `now`, done or not: it leaves and reports if it has not.
    pub fn abandon(&mut self, acc: &mut Accumulator, now: u64) -> (bill: Option<Duration>)
        requires
            old(self).blame().account().within(*old(acc)),
        ensures
            final(self).blame().reported(),
            final(self).blame().account().within(*final(acc)),
            bill is Some <==> !old(self).blame().reported(),
            bill is None ==> *final(self) == *old(self) && *final(acc) == *old(acc),
            bill matches Some(d) ==> {
                let b = old(self).blame();
                let gone = old(acc).left(now);
                &&& final(self).blame().account() == b.account().drawn(gone)
                &&& *final(acc) == gone.charged(b.account().share(gone))
                &&& crate::duration::nanos(d) == b.account().drawn(gone).owed
                &&& b.hands_in(d, final(self).blame())
            },
    {
        self.blame.finalize(acc, now)
    }
}

// ---- laws ----

/// Shut-time up to an arrival is split among those who were there before it: the newcomer is
/// counted only from its arrival on, where the span under way starts over.
pub proof fn law_an_arrival_banks_the_span_among_those_before_it(acc: Accumulator, now: u64)
    ensures
        acc.gate == u64::MAX ==> acc.entered(now) == (Accumulator {
            inflight: acc.inflight.wrapping_add(1),
            ..acc
        }),
        acc.gate < u64::MAX ==> {
            let r = acc.entered(now);
            let span: u64 = if now >= acc.gate { (now - acc.gate) as u64 } else { 0 };
            &&& r.gate == (if now < u64::MAX { now } else { (u64::MAX - 1) as u64 })
            &&& r.inflight == acc.inflight.wrapping_add(1)
            &&& r.attributed == acc.attributed
            &&& acc.inflight > 0 ==> r.rate == acc.rate.wrapping_add((span / acc.inflight) as u64)
            &&& acc.inflight > 0 ==> r.accumulated == acc.accumulated.wrapping_add(span)
            &&& acc.inflight > 0 ==> r.unattributed == acc.unattributed
            &&& acc.inflight == 0 ==> r.rate == acc.rate && r.accumulated == acc.accumulated
            &&& acc.inflight == 0 ==> r.unattributed == acc.unattributed.wrapping_add(span)
        },
{
}

/// Shut-time up to a departure is split among all who were there, the leaver included, and the
/// leaver is not counted from then on.
pub proof fn law_a_departure_banks_the_span_among_all_with_the_leaver(acc: Accumulator, now: u64)
    ensures
        acc.gate == u64::MAX ==> acc.left(now) == (Accumulator {
            inflight: acc.inflight.wrapping_sub(1),
            ..acc
        }),
        acc.gate < u64::MAX ==> {
            let r = acc.left(now);
            let span: u64 = if now >= acc.gate { (now - acc.gate) as u64 } else { 0 };
            &&& r.gate == (if now < u64::MAX { now } else { (u64::MAX - 1) as u64 })
            &&& r.inflight == acc.inflight.wrapping_sub(1)
            &&& r.attributed == acc.attributed
            &&& acc.inflight > 0 ==> r.rate == acc.rate.wrapping_add((span / acc.inflight) as u64)
            &&& acc.inflight > 0 ==> r.accumulated == acc.accumulated.wrapping_add(span)
            &&& acc.inflight > 0 ==> r.unattributed == acc.unattributed
            &&& acc.inflight == 0 ==> r.rate == acc.rate && r.accumulated == acc.accumulated
            &&& acc.inflight == 0 ==> r.unattributed == acc.unattributed.wrapping_add(span)
        },
{
}

/// Reading the totals banks the shut-time up to then among those present, and the span under
/// way starts over.
pub proof fn law_a_reading_banks_the_span_among_those_present(acc: Accumulator, now: u64)
    ensures
        acc.gate == u64::MAX ==> acc.flushed(now) == (Accumulator {
            inflight: acc.inflight,
            ..acc
        }),
        acc.gate < u64::MAX ==> {
            let r = acc.flushed(now);
            let span: u64 = if now >= acc.gate { (now - acc.gate) as u64 } else { 0 };
            &&& r.gate == (if now < u64::MAX { now } else { (u64::MAX - 1) as u64 })
            &&& r.inflight == acc.inflight
            &&& r.attributed == acc.attributed
            &&& acc.inflight > 0 ==> r.rate == acc.rate.wrapping_add((span / acc.inflight) as u64)
            &&& acc.inflight > 0 ==> r.accumulated == acc.accumulated.wrapping_add(span)
            &&& acc.inflight > 0 ==> r.unattributed == acc.unattributed
            &&& acc.inflight == 0 ==> r.rate == acc.rate && r.accumulated == acc.accumulated
            &&& acc.inflight == 0 ==> r.unattributed == acc.unattributed.wrapping_add(span)
        },
{
}

/// Opening a gate banks the shut-time up to then among those present and ends the span.
pub proof fn law_opening_banks_the_span_among_those_present(acc: Accumulator, now: u64)
    ensures
        acc.gate == u64::MAX ==> acc.opened_at(now) == (Accumulator {
            inflight: acc.inflight,
            ..acc
        }),
        acc.gate < u64::MAX ==> {
            let r = acc.opened_at(now);
            let span: u64 = if now >= acc.gate { (now - acc.gate) as u64 } else { 0 };
            &&& r.gate == u64::MAX
            &&& r.inflight == acc.inflight
            &&& r.attributed == acc.attributed
            &&& acc.inflight > 0 ==> r.rate == acc.rate.wrapping_add((span / acc.inflight) as u64)
            &&& acc.inflight > 0 ==> r.accumulated == acc.accumulated.wrapping_add(span)
            &&& acc.inflight > 0 ==> r.unattributed == acc.unattributed
            &&& acc.inflight == 0 ==> r.rate == acc.rate && r.accumulated == acc.accumulated
            &&& acc.inflight == 0 ==> r.unattributed == acc.unattributed.wrapping_add(span)
        },
{
}

/// Shutting a gate notes the time, once: one that is shut already stays shut since when it
/// was, and nothing is billed or banked.
pub proof fn law_shutting_notes_the_time_once(acc: Accumulator, now: u64)
    ensures
        acc.gate < u64::MAX ==> acc.shut_at(now) == acc,
        acc.gate == u64::MAX ==> acc.shut_at(now) == (Accumulator {
            gate: if now < u64::MAX { now } else { (u64::MAX - 1) as u64 },
            ..acc
        }),
{
}

/// A stretch of shut-time is split evenly among those present: the meter advances by one
/// share, the whole of it accumulates, and nobody is billed yet. With nobody there it is
/// nobody's.
pub proof fn law_a_stretch_is_split_among_those_present(acc: Accumulator, dt: u64)
    ensures
        acc.inflight > 0 ==> acc.accrued(dt) == (Accumulator {
            rate: acc.rate.wrapping_add((dt / acc.inflight) as u64),
            accumulated: acc.accumulated.wrapping_add(dt),
            ..acc
        }),
        acc.inflight == 0 ==> acc.accrued(dt) == (Accumulator {
            unattributed: acc.unattributed.wrapping_add(dt),
            ..acc
        }),
{
}

/// A claim is granted in full where that much is measured and not billed yet, and as far as
/// there is any otherwise; what is granted is billed, and nothing else changes.
pub proof fn law_a_claim_is_granted_as_far_as_there_is_room(acc: Accumulator, blame: u64)
    ensures
        acc.attributed + blame <= acc.accumulated ==> acc.credit(blame) == blame,
        acc.attributed <= acc.accumulated < acc.attributed + blame ==> acc.credit(blame)
            == acc.accumulated - acc.attributed,
        acc.attributed > acc.accumulated ==> acc.credit(blame) == 0,
        acc.charged(blame).attributed == acc.attributed + acc.credit(blame),
        acc.charged(blame) == (Accumulator { attributed: acc.charged(blame).attributed, ..acc }),
{
}

/// An account that draws owes what the meter moved by since it last looked, as far as that is
/// granted, on top of what it owed, and has seen the meter as it stands.
pub proof fn law_a_draw_adds_what_the_meter_moved_by(account: Account, acc: Accumulator)
    requires
        account.owed <= acc.attributed,
    ensures
        account.share(acc) == acc.rate.wrapping_sub(account.seen),
        account.drawn(acc).seen == acc.rate,
        account.drawn(acc).owed == account.owed + acc.credit(acc.rate.wrapping_sub(account.seen)),
        account.within(acc),
{
}

/// Two who share a shut gate pay for their own time each. Whoever was there alone since
/// `since` pays the stretch up to an arrival at `mid` in full and half of the one after it up
/// to `to`; the newcomer pays the other half and nothing of what came before.
pub proof fn law_a_newcomer_shares_only_what_comes_after_it(
    acc: Accumulator,
    since: u64,
    mid: u64,
    to: u64,
)
    requires
        acc.gate == since,
        acc.inflight == 1,
        since <= mid <= to < u64::MAX,
    ensures
        ({
            let first = Account { seen: acc.rate, owed: 0 };
            let joined = acc.entered(mid);
            let second = Account { seen: joined.rate, owed: 0 };
            let end = joined.opened_at(to);
            &&& first.share(joined) == mid - since
            &&& second.share(end) == (to - mid) / 2
            &&& first.share(end) == (mid - since) + (to - mid) / 2
            &&& end.accumulated == acc.accumulated.wrapping_add((to - since) as u64)
        }),
{
    let span = (mid - since) as u64;
    assert(span / 1 == span);
    let joined = acc.entered(mid);
    assert(joined.inflight == 2);
    assert(joined.gate == mid);
}

/// A gate's word is the time it shut, and the last word there is stands for an open gate.
pub proof fn law_a_gate_word_is_the_time_it_shut(word: u64)
    ensures
        Gate::of(word) is Open <==> word == u64::MAX,
        word < u64::MAX ==> Gate::of(word) == (Gate::Shut { since: word }),
        Gate::Open.word() == u64::MAX,
        word < u64::MAX ==> (Gate::Shut { since: word }).word() == word,
        (Gate::Shut { since: u64::MAX }).word() == u64::MAX - 1,
{
}

/// Measuring starts with nothing measured, nobody there and an open gate.
pub proof fn law_measuring_starts_from_nothing()
    ensures
        Accumulator::fresh() == (Accumulator {
            rate: 0,
            inflight: 0,
            accumulated: 0,
            attributed: 0,
            unattributed: 0,
            gate: u64::MAX,
        }),
{
}

/// What the steps of a request say: with nothing handed in its tenant, its reporter and
/// whether it has reported stay; handing in happens to one that has not reported, adds one
/// entry at the end, with its own tenant and exactly that bill, and leaves it reported.
pub proof fn law_handing_in_adds_one_entry<R: Report>(
    before: Blame<R>,
    after: Blame<R>,
    bill: Duration,
)
    ensures
        before.stays(after) <==> after.tenant() == before.tenant() && after.reporter()
            == before.reporter() && after.reported() == before.reported(),
        before.hands_in(bill, after) <==> !before.reported() && after.reported() && after.tenant()
            == before.tenant() && after.reporter().log() == before.reporter().log().push(
            (before.tenant(), bill),
        ),
        before.hands_in(bill, after) ==> after.reporter().log().len()
            == before.reporter().log().len() + 1 && after.reporter().log().last() == (
            before.tenant(),
            bill,
        ),
{
}

/// One step in the life of a request: nothing is handed in, or its one bill is.
pub open spec fn lives_on<R: Report>(before: Blame<R>, after: Blame<R>) -> bool {
    before.stays(after) || exists|bill: Duration| #[trigger] before.hands_in(bill, after)
}

/// A bill is handed in exactly once in the life of a request, whatever is done with the
/// request and however often: as long as it has not reported, nothing is handed in, and once
/// it has, one bill was, its own tenant's.
pub proof fn law_a_bill_is_handed_in_exactly_once<R: Report>(life: Seq<Blame<R>>)
    requires
        life.len() > 0,
        !life[0].reported(),
        forall|i: int| #![trigger life[i]]
            0 < i < life.len() ==> lives_on(life[i - 1], life[i]),
    ensures
        !life.last().reported() ==> life.last().reporter().log() == life[0].reporter().log(),
        life.last().reported() ==> exists|bill: Duration|
            life.last().reporter().log() == #[trigger] life[0].reporter().log().push(
                (life[0].tenant(), bill),
            ),
        life.last().tenant() == life[0].tenant(),
    decreases life.len(),
{
    if life.len() > 1 {
        let front = life.drop_last();
        assert forall|i: int| #![trigger front[i]] 0 < i < front.len() implies lives_on(
            front[i - 1],
            front[i],
        ) by {
            assert(front[i] == life[i] && front[i - 1] == life[i - 1]);
        }
        law_a_bill_is_handed_in_exactly_once(front);
        let before = front.last();
        let after = life[life.len() - 1];
        assert(before == life[life.len() - 2]);
        assert(lives_on(before, after));
        if !before.stays(after) {
            let bill = choose|bill: Duration| #[trigger] before.hands_in(bill, after);
            assert(before.hands_in(bill, after));
            assert(after.reporter().log() == life[0].reporter().log().push(
                (life[0].tenant(), bill),
            ));
        }
    }
}

impl Accumulator {
    /// No more is billed than was measured.
    pub open spec fn bounded(self) -> bool {
        self.attributed <= self.accumulated
    }

    /// How long the shut span under way has lasted by `now`.
    pub open spec fn running(self, now: u64) -> u64 {
        match Gate::of(self.gate) {
            Gate::Open => 0,
            Gate::Shut { since } => now.saturating_sub(since),
        }
    }

    /// Everything that was measured, whoever it is on.
    pub open spec fn measured(self) -> int {
        self.accumulated + self.unattributed
    }
}

/// What a list of accounts owes together.
pub open spec fn total_owed(accounts: Seq<Account>) -> nat
    decreases accounts.len(),
{
    if accounts.len() == 0 {
        0
    } else {
        total_owed(accounts.drop_last()) + accounts.last().owed as nat
    }
}

/// Words and gates are two ways to write the same thing: a word survives the round trip,
/// and so does a gate, but for one shut at the very last time, which moves one back.
pub proof fn law_gate_words_round_trip(word: u64, gate: Gate)
    ensures
        Gate::of(word).word() == word,
        gate != (Gate::Shut { since: OPEN }) ==> Gate::of(gate.word()) == gate,
        Gate::of((Gate::Shut { since: OPEN }).word()) == (Gate::Shut { since: (OPEN - 1) as u64 }),
{
}

/// Billing never exceeds the measured whole, whatever happens, as long as the measured
/// whole stays inside its counter.
pub proof fn law_bills_stay_within_what_was_measured(
    acc: Accumulator,
    now: u64,
    dt: u64,
    blame: u64,
)
    requires
        acc.bounded(),
        acc.inflight > 0 ==> acc.accumulated + dt <= u64::MAX,
        acc.inflight > 0 ==> acc.accumulated + acc.running(now) <= u64::MAX,
    ensures
        Accumulator::fresh().bounded(),
        acc.accrued(dt).bounded(),
        acc.flushed(now).bounded(),
        acc.shut_at(now).bounded(),
        acc.opened_at(now).bounded(),
        acc.entered(now).bounded(),
        acc.left(now).bounded(),
        acc.charged(blame).bounded(),
{
}

/// A full claim on all there is fills the whole and no more.
pub proof fn law_claims_are_clamped_to_the_whole(acc: Accumulator, blame: u64)
    requires
        acc.bounded(),
    ensures
        blame >= acc.room() ==> acc.charged(blame).attributed == acc.accumulated,
        blame <= acc.room() ==> acc.charged(blame).attributed == acc.attributed + blame,
{
}

/// Every nanosecond of shut-time is counted once: on the occupiers if there are any, on
/// nobody otherwise.
pub proof fn law_shut_time_is_counted_once(acc: Accumulator, dt: u64)
    requires
        acc.inflight > 0 ==> acc.accumulated + dt <= u64::MAX,
        acc.inflight == 0 ==> acc.unattributed + dt <= u64::MAX,
    ensures
        acc.accrued(dt).measured() == acc.measured() + dt,
        acc.inflight == 0 ==> acc.accrued(dt).accumulated == acc.accumulated,
        acc.inflight > 0 ==> acc.accrued(dt).unattributed == acc.unattributed,
{
}

/// The split is even, and what it leaves over is less than a nanosecond per occupier.
pub proof fn law_the_split_is_even(acc: Accumulator, dt: u64)
    requires
        acc.inflight > 0,
    ensures
        acc.accrued(dt).rate == acc.rate.wrapping_add((dt / acc.inflight) as u64),
        acc.inflight * (dt / acc.inflight) <= dt,
        dt - acc.inflight * (dt / acc.inflight) < acc.inflight,
{
    vstd::arithmetic::div_mod::lemma_fundamental_div_mod(dt as int, acc.inflight as int);
    vstd::arithmetic::div_mod::lemma_mod_bound(dt as int, acc.inflight as int);
}

/// The meter may roll over between two looks at it: the share is what it moved by.
pub proof fn law_blame_survives_the_meter_rolling_over(
    account: Account,
    acc: Accumulator,
    moved: u64,
)
    requires
        acc.rate == account.seen.wrapping_add(moved),
    ensures
        account.share(acc) == moved,
{
}

/// A draw moves exactly what it adds to the bill into what is billed in total, and never
/// takes anything back.
pub proof fn law_draws_conserve(account: Account, acc: Accumulator)
    requires
        account.within(acc),
    ensures
        account.drawn(acc).owed - account.owed == acc.charged(account.share(acc)).attributed
            - acc.attributed,
        account.drawn(acc).owed >= account.owed,
        account.drawn(acc).within(acc.charged(account.share(acc))),
{
}

/// A second draw with the meter standing still costs nothing and changes nothing.
pub proof fn law_a_still_meter_costs_nothing(account: Account, acc: Accumulator)
    requires
        account.within(acc),
    ensures
        ({
            let after = acc.charged(account.share(acc));
            &&& account.drawn(acc).drawn(after) == account.drawn(acc)
            &&& after.charged(account.drawn(acc).share(after)) == after
        }),
{
}

/// Drawing often costs no more than drawing once: with a draw in between, the bill after a
/// further stretch of shut-time is at most what a single draw at the end gives, and the
/// same where the draw in between was granted in full.
pub proof fn law_drawing_often_costs_no_more(account: Account, acc: Accumulator, dt: u64)
    requires
        account.within(acc),
        acc.bounded(),
        acc.inflight > 0,
        acc.accumulated + dt <= u64::MAX,
        account.share(acc) + dt / acc.inflight <= u64::MAX,
    ensures
        ({
            let between = acc.charged(account.share(acc));
            let eager = account.drawn(acc).drawn(between.accrued(dt));
            let lazy = account.drawn(acc.accrued(dt));
            &&& eager.seen == lazy.seen
            &&& eager.owed <= lazy.owed
            &&& account.share(acc) <= acc.room() ==> eager.owed == lazy.owed
        }),
{
    let between = acc.charged(account.share(acc));
    let later = between.accrued(dt);
    let part = (dt / acc.inflight) as u64;
    vstd::arithmetic::div_mod::lemma_div_is_ordered_by_denominator(
        dt as int,
        1,
        acc.inflight as int,
    );
    vstd::arithmetic::div_mod::lemma_div_basics(dt as int);
    assert(part <= dt);
    assert(account.drawn(acc).share(later) == part);
    assert(account.share(acc.accrued(dt)) == account.share(acc) + part);
    assert(account.drawn(acc).owed == account.owed + acc.credit(account.share(acc)));
}

/// What the occupiers owe together is what is billed in total: a draw keeps the two equal.
pub proof fn law_the_ledger_sums_to_what_is_billed(accounts: Seq<Account>, acc: Accumulator, i: int)
    requires
        0 <= i < accounts.len(),
        total_owed(accounts) == acc.attributed,
    ensures
        accounts[i].within(acc),
        total_owed(accounts.update(i, accounts[i].drawn(acc))) == acc.charged(
            accounts[i].share(acc),
        ).attributed,
{
    lemma_total_owed_updated(accounts, i, accounts[i].drawn(acc));
}

proof fn lemma_total_owed_updated(accounts: Seq<Account>, i: int, account: Account)
    requires
        0 <= i < accounts.len(),
    ensures
        accounts[i].owed <= total_owed(accounts),
        total_owed(accounts.update(i, account)) == total_owed(accounts) - accounts[i].owed
            + account.owed,
    decreases accounts.len(),
{
    let n = accounts.len() - 1;
    let updated = accounts.update(i, account);
    if i == n {
        assert(updated.drop_last() =~= accounts.drop_last());
    } else {
        lemma_total_owed_updated(accounts.drop_last(), i, account);
        assert(updated.drop_last() =~= accounts.drop_last().update(i, account));
    }
}

/// A newcomer joins the ledger owing nothing.
pub proof fn law_newcomers_owe_nothing(accounts: Seq<Account>, seen: u64)
    ensures
        total_owed(accounts.push(Account { seen, owed: 0 })) == total_owed(accounts),
{
    assert(accounts.push(Account { seen, owed: 0 }).drop_last() =~= accounts);
}

/// An occupier pays only for what happens while it is there: on arrival it has nothing to
/// draw, and after a stretch of shut-time it draws its even share of that stretch.
pub proof fn law_occupiers_pay_from_their_arrival(acc: Accumulator, now: u64, dt: u64)
    requires
        acc.flushed(now).inflight < u64::MAX,
    ensures
        ({
            let here = acc.entered(now);
            let account = Account { seen: here.rate, owed: 0 };
            &&& account.share(here) == 0
            &&& account.share(here.accrued(dt)) == dt / here.inflight
        }),
{
}

/// A lone occupier that is up to date owes the whole of the next stretch.
pub proof fn law_a_lone_occupier_owes_it_all(account: Account, acc: Accumulator, dt: u64)
    requires
        acc.inflight == 1,
        account.seen == acc.rate,
        account.within(acc),
        acc.bounded(),
        acc.accumulated + dt <= u64::MAX,
    ensures
        account.drawn(acc.accrued(dt)).owed == account.owed + dt,
{
    vstd::arithmetic::div_mod::lemma_div_basics(dt as int);
}

/// While a gate is open nothing is minted: arrivals, departures and readings leave the
/// totals and the meter alone.
pub proof fn law_an_open_gate_mints_nothing(acc: Accumulator, now: u64)
    requires
        Gate::of(acc.gate) is Open,
    ensures
        acc.flushed(now) == acc,
        acc.opened_at(now) == acc,
        acc.entered(now) == (Accumulator { inflight: acc.inflight.wrapping_add(1), ..acc }),
        acc.left(now) == (Accumulator { inflight: acc.inflight.wrapping_sub(1), ..acc }),
{
}

/// A pending span counts in full and once: from the first time a gate was found shut to
/// the time it was found open again, however often it was found shut in between.
pub proof fn law_a_pending_span_is_the_shut_time(acc: Accumulator, from: u64, again: u64, to: u64)
    requires
        Gate::of(acc.gate) is Open,
        from <= to,
        from < OPEN,
    ensures
        acc.shut_at(from).opened_at(to) == acc.accrued((to - from) as u64),
        acc.shut_at(from).shut_at(again) == acc.shut_at(from),
{
}

/// Settling in the middle of a span reads it without changing it: the totals come out as
/// if it had not been read, and the meter falls behind by a nanosecond at most.
pub proof fn law_settling_does_not_change_the_span(acc: Accumulator, since: u64, mid: u64, to: u64)
    requires
        acc.gate == since,
        since <= mid <= to,
        mid < OPEN,
    ensures
        ({
            let read = acc.flushed(mid).flushed(to);
            let unread = acc.flushed(to);
            &&& read == (Accumulator { rate: read.rate, ..unread })
            &&& unread.rate == read.rate || unread.rate == read.rate.wrapping_add(1)
        }),
{
    if acc.inflight > 0 {
        lemma_floors_of_a_sum(mid - since, to - mid, acc.inflight as int);
    }
}

proof fn lemma_floors_of_a_sum(a: int, b: int, n: int)
    by (nonlinear_arith)
    requires
        a >= 0,
        b >= 0,
        n > 0,
    ensures
        a / n + b / n <= (a + b) / n <= a / n + b / n + 1,
{
}

/// Whoever arrives and leaves again leaves the head count as it was.
pub proof fn law_everyone_who_enters_leaves(acc: Accumulator, arrival: u64, departure: u64)
    ensures
        acc.entered(arrival).left(departure).inflight == acc.inflight,
{
}

/// What can happen to a measured server. Requests are told apart by the order in which they
/// arrived.
pub enum Happening {
    Arrive { now: u64 },
    Draw { who: int },
    Leave { who: int, now: u64 },
    Accrue { dt: u64 },
    Shut { now: u64 },
    Open { now: u64 },
    Settle { now: u64 },
}

/// The measurements, the account of every request that ever arrived, and which of them have
/// left and reported.
pub struct Ledger {
    pub acc: Accumulator,
    pub accounts: Seq<Account>,
    pub gone: Seq<bool>,
}

impl Ledger {
    /// Nothing measured and nobody there.
    pub open spec fn fresh() -> Ledger {
        Ledger { acc: Accumulator::fresh(), accounts: Seq::empty(), gone: Seq::empty() }
    }

    /// Request `who` is on the server.
    pub open spec fn present(self, who: int) -> bool {
        0 <= who < self.accounts.len() && 0 <= who < self.gone.len() && !self.gone[who]
    }

    /// The ledger after one thing happened. Only a request on the server draws or leaves;
    /// leaving again does nothing.
    pub open spec fn after(self, h: Happening) -> Ledger {
        match h {
            Happening::Arrive { now } => {
                let acc = self.acc.entered(now);
                Ledger {
                    acc,
                    accounts: self.accounts.push(Account { seen: acc.rate, owed: 0 }),
                    gone: self.gone.push(false),
                }
            },
            Happening::Draw { who } => if self.present(who) {
                let account = self.accounts[who];
                Ledger {
                    acc: self.acc.charged(account.share(self.acc)),
                    accounts: self.accounts.update(who, account.drawn(self.acc)),
                    gone: self.gone,
                }
            } else {
                self
            },
            Happening::Leave { who, now } => if self.present(who) {
                let account = self.accounts[who];
                let left = self.acc.left(now);
                Ledger {
                    acc: left.charged(account.share(left)),
                    accounts: self.accounts.update(who, account.drawn(left)),
                    gone: self.gone.update(who, true),
                }
            } else {
                self
            },
            Happening::Accrue { dt } => Ledger { acc: self.acc.accrued(dt), ..self },
            Happening::Shut { now } => Ledger { acc: self.acc.shut_at(now), ..self },
            Happening::Open { now } => Ledger { acc: self.acc.opened_at(now), ..self },
            Happening::Settle { now } => Ledger { acc: self.acc.flushed(now), ..self },
        }
    }

    /// How many requests have left and reported.
    pub open spec fn departures(self) -> nat {
        departed(self.gone)
    }

    /// What has been reported, all bills together.
    pub open spec fn reported(self) -> nat {
        reported_of(self.accounts, self.gone)
    }
}

/// How many of these are gone.
pub open spec fn departed(gone: Seq<bool>) -> nat
    decreases gone.len(),
{
    if gone.len() == 0 {
        0
    } else {
        departed(gone.drop_last()) + (if gone.last() { 1nat } else { 0nat })
    }
}

/// What the accounts of those gone owe together.
pub open spec fn reported_of(accounts: Seq<Account>, gone: Seq<bool>) -> nat
    decreases gone.len(),
{
    if gone.len() == 0 || accounts.len() == 0 {
        0
    } else {
        reported_of(accounts.drop_last(), gone.drop_last()) + (if gone.last() {
            accounts.last().owed as nat
        } else {
            0nat
        })
    }
}

/// The ledger after a history, from the start.
pub open spec fn ledger_after(history: Seq<Happening>) -> Ledger
    decreases history.len(),
{
    if history.len() == 0 {
        Ledger::fresh()
    } else {
        ledger_after(history.drop_last()).after(history.last())
    }
}

/// The total of shut-time stays inside its counter all through a history.
pub open spec fn never_rolls_over(history: Seq<Happening>) -> bool
    decreases history.len(),
{
    history.len() > 0 ==> {
        &&& never_rolls_over(history.drop_last())
        &&& ledger_after(history.drop_last()).acc.accumulated <= ledger_after(
            history,
        ).acc.accumulated
    }
}

proof fn lemma_departed_updated(gone: Seq<bool>, who: int)
    requires
        0 <= who < gone.len(),
        !gone[who],
    ensures
        departed(gone.update(who, true)) == departed(gone) + 1,
        departed(gone) < gone.len(),
    decreases gone.len(),
{
    let updated = gone.update(who, true);
    if who == gone.len() - 1 {
        assert(updated.drop_last() =~= gone.drop_last());
        lemma_departed_bound(gone.drop_last());
    } else {
        lemma_departed_updated(gone.drop_last(), who);
        assert(updated.drop_last() =~= gone.drop_last().update(who, true));
    }
}

proof fn lemma_departed_bound(gone: Seq<bool>)
    ensures
        departed(gone) <= gone.len(),
    decreases gone.len(),
{
    if gone.len() > 0 {
        lemma_departed_bound(gone.drop_last());
    }
}

/// The head count is right after any history: requests on the server are those that arrived
/// less those that left, so it never runs below zero and is zero once everyone has left.
pub proof fn law_the_head_count_is_arrivals_less_departures(history: Seq<Happening>)
    requires
        ledger_after(history).accounts.len() <= u64::MAX,
    ensures
        ({
            let l = ledger_after(history);
            &&& l.gone.len() == l.accounts.len()
            &&& l.departures() <= l.accounts.len()
            &&& l.acc.inflight == l.accounts.len() - l.departures()
        }),
    decreases history.len(),
{
    if history.len() > 0 {
        let front = history.drop_last();
        let before = ledger_after(front);
        let l = ledger_after(history);
        assert(before.accounts.len() <= l.accounts.len());
        law_the_head_count_is_arrivals_less_departures(front);
        match history.last() {
            Happening::Arrive { now } => {
                assert(l.gone.drop_last() =~= before.gone);
            },
            Happening::Leave { who, now } => {
                if before.present(who) {
                    lemma_departed_updated(before.gone, who);
                }
            },
            _ => {},
        }
        lemma_departed_bound(l.gone);
    }
}

/// The ledger is right after any history: what the requests owe together, gone or not, is
/// what is billed in total.
pub proof fn law_the_ledger_is_right_after_any_history(history: Seq<Happening>)
    ensures
        total_owed(ledger_after(history).accounts) == ledger_after(history).acc.attributed,
    decreases history.len(),
{
    if history.len() > 0 {
        let front = history.drop_last();
        let before = ledger_after(front);
        law_the_ledger_is_right_after_any_history(front);
        match history.last() {
            Happening::Arrive { now } => {
                law_newcomers_owe_nothing(before.accounts, before.acc.entered(now).rate);
            },
            Happening::Draw { who } => {
                if before.present(who) {
                    law_the_ledger_sums_to_what_is_billed(before.accounts, before.acc, who);
                }
            },
            Happening::Leave { who, now } => {
                if before.present(who) {
                    law_the_ledger_sums_to_what_is_billed(
                        before.accounts,
                        before.acc.left(now),
                        who,
                    );
                }
            },
            _ => {},
        }
    }
}

/// Once everyone has left, the bills that were reported add up to what is billed in total.
pub proof fn law_the_bills_add_up_once_everyone_has_left(history: Seq<Happening>)
    requires
        forall|who: int| !ledger_after(history).present(who),
    ensures
        ledger_after(history).reported() == ledger_after(history).acc.attributed,
{
    let l = ledger_after(history);
    law_the_ledger_is_right_after_any_history(history);
    lemma_one_flag_each(history);
    assert forall|i: int| 0 <= i < l.gone.len() implies #[trigger] l.gone[i] by {
        assert(!l.present(i));
    }
    lemma_all_reported(l.accounts, l.gone);
}

proof fn lemma_one_flag_each(history: Seq<Happening>)
    ensures
        ledger_after(history).gone.len() == ledger_after(history).accounts.len(),
    decreases history.len(),
{
    if history.len() > 0 {
        lemma_one_flag_each(history.drop_last());
    }
}

proof fn lemma_all_reported(accounts: Seq<Account>, gone: Seq<bool>)
    requires
        accounts.len() == gone.len(),
        forall|i: int| 0 <= i < gone.len() ==> #[trigger] gone[i],
    ensures
        reported_of(accounts, gone) == total_owed(accounts),
    decreases gone.len(),
{
    if gone.len() > 0 {
        let front = gone.drop_last();
        assert forall|i: int| 0 <= i < front.len() implies #[trigger] front[i] by {
            assert(gone[i]);
        }
        lemma_all_reported(accounts.drop_last(), front);
        assert(gone[gone.len() - 1]);
    }
}

/// A request reports once: after it has left, nothing that happens changes its bill or
/// brings it back.
pub proof fn law_a_reported_bill_is_final(
    history: Seq<Happening>,
    more: Seq<Happening>,
    who: int,
)
    requires
        0 <= who < ledger_after(history).gone.len(),
        ledger_after(history).gone[who],
    ensures
        0 <= who < ledger_after(history + more).gone.len(),
        ledger_after(history + more).gone[who],
        ledger_after(history + more).accounts[who] == ledger_after(history).accounts[who],
    decreases more.len(),
{
    if more.len() == 0 {
        assert(history + more =~= history);
    } else {
        law_a_reported_bill_is_final(history, more.drop_last(), who);
        assert((history + more).drop_last() =~= history + more.drop_last());
        lemma_one_flag_each(history + more.drop_last());
    }
}

/// Billing never exceeds the measured whole after any history, as long as the measured whole
/// stays inside its counter.
pub proof fn law_bills_stay_within_in_any_history(history: Seq<Happening>)
    requires
        never_rolls_over(history),
    ensures
        ledger_after(history).acc.bounded(),
    decreases history.len(),
{
    if history.len() > 0 {
        law_bills_stay_within_in_any_history(history.drop_last());
    }
}

} // verus!
