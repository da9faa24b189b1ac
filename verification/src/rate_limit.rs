//! Turning a tenant's traffic away by a share that someone else decided.
//!
//! A store, [`Limits`], tells what share of a tenant's requests to refuse, and the
//! [`Tally`] decides which: each tenant's requests are counted as they arrive, and one is
//! refused whenever that leaves the refusals no further along than the share of the traffic
//! seen so far. Over `n` requests at a constant share `p` that refuses `⌊n·p⌋` of them,
//! spaced out.
//!
//! The tally starts over when a tenant's share moves: a share is a statement about the
//! traffic now, so a tenant that was refused hard and then forgiven does not go on paying
//! off the old rate.
//!
//! A share is a 64-bit floating-point number between zero and one. Here it is held by its
//! bits and only told apart from others; `⌊n·p⌋`, the *quota* of a request, is worked out
//! by the caller and handed in.

use core::time::Duration;
use vstd::hash_map::StringHashMap;
use vstd::prelude::*;

use crate::ready::Readiness;
use crate::tenant::Tenant;

verus! {

/// The store that a rate-limited server talks to: it writes what a tenant cost it and reads
/// back the share of that tenant's traffic to refuse.
pub trait Limits {
    /// Bank what one finished request cost this tenant in shut-time.
    fn write_blame(&self, tenant: &str, blame: Duration);

    /// The bits of the share of this tenant's traffic to refuse, zero for a tenant the
    /// store has never heard of. Shares outside of zero to one are taken for the nearer of
    /// the two.
    fn drop_pct(&self, tenant: &str) -> u64;
}

// ---- shares ----

/// The bits of the number one.
pub const ONE: u64 = 0x3FF0_0000_0000_0000;

/// The bits of infinity: bits above it, apart from the sign, are no number.
pub const INFINITY: u64 = 0x7FF0_0000_0000_0000;

/// The bit that tells the sign.
pub const SIGN: u64 = 0x8000_0000_0000_0000;

/// The size of the number with these bits, as bits: without its sign.
pub open spec fn magnitude(bits: u64) -> u64 {
    if bits >= SIGN { (bits - SIGN) as u64 } else { bits }
}

/// These bits are a number.
pub open spec fn is_number(bits: u64) -> bool {
    magnitude(bits) <= INFINITY
}

/// The nearest share to the number with these bits, as bits: numbers below zero go to zero
/// and numbers above one to one. What is no number stays as it is.
pub open spec fn clamped(bits: u64) -> u64 {
    if !is_number(bits) {
        bits
    } else if bits >= SIGN {
        0
    } else if bits > ONE {
        ONE
    } else {
        bits
    }
}

/// A share of a tenant's traffic.
#[derive(Clone, Copy, PartialEq, Eq, Debug, Structural)]
pub struct Share {
    bits: u64,
}

impl View for Share {
    type V = u64;

    /// The bits of the share.
    closed spec fn view(&self) -> u64 {
        self.bits
    }
}

impl Share {
    /// The share for the number with these bits.
    pub fn from_bits(bits: u64) -> (share: Self)
        ensures
            share@ == clamped(bits),
    {
        let size: u64 = if bits >= SIGN { bits - SIGN } else { bits };
        if size > INFINITY {
            Share { bits }
        } else if bits >= SIGN {
            Share { bits: 0 }
        } else if bits > ONE {
            Share { bits: ONE }
        } else {
            Share { bits }
        }
    }

    pub fn to_bits(self) -> (bits: u64)
        ensures
            bits == self@,
    {
        self.bits
    }

    /// Whether `other` is the same share. What is no number is not even the same as itself.
    pub fn same(self, other: Share) -> (same: bool)
        ensures
            same <==> self@ == other@ && is_number(self@),
    {
        let size: u64 = if self.bits >= SIGN { self.bits - SIGN } else { self.bits };
        self.bits == other.bits && size <= INFINITY
    }
}

// ---- the tally ----

/// One tenant's run at one share: how many of its requests have been seen, and how many of
/// them refused.
#[derive(Clone, Copy)]
pub struct Run {
    pub share: Share,
    pub seen: u64,
    pub refused: u64,
}

impl Run {
    /// A run that goes on when a request is judged by `share`.
    pub open spec fn continues(self, share: Share) -> bool {
        self.share@ == share@ && is_number(share@)
    }

    /// A run with nothing seen.
    pub open spec fn fresh(share: Share) -> Run {
        Run { share, seen: 0, refused: 0 }
    }

    /// A request is refused while the refusals lag behind the quota.
    pub open spec fn refuses(self, quota: u64) -> bool {
        self.refused < quota
    }

    /// The run with one more request counted.
    pub open spec fn counted(self, quota: u64) -> Run {
        Run {
            share: self.share,
            seen: (self.seen + 1) as u64,
            refused: if self.refuses(quota) {
                (self.refused + 1) as u64
            } else {
                self.refused
            },
        }
    }
}

/// The run that a request of `tenant`'s falls into when judged by `share`: the one under
/// way if it is at that share, and a fresh one otherwise.
pub open spec fn run_of(runs: Map<Seq<char>, Run>, tenant: Seq<char>, share: Share) -> Run {
    if runs.contains_key(tenant) && runs[tenant].continues(share) {
        runs[tenant]
    } else {
        Run::fresh(share)
    }
}

/// The runs once a request of `tenant`'s is counted.
pub open spec fn counted(
    runs: Map<Seq<char>, Run>,
    tenant: Seq<char>,
    share: Share,
    quota: u64,
) -> Map<Seq<char>, Run> {
    runs.insert(tenant, run_of(runs, tenant, share).counted(quota))
}

/// What counting a request against its tenant's share came to.
#[derive(Clone, Copy, PartialEq, Eq, Debug, Structural)]
pub enum Refusal {
    Pass,
    Refuse,
}

/// Every tenant's run.
pub struct Tally {
    runs: StringHashMap<Run>,
}

impl View for Tally {
    type V = Map<Seq<char>, Run>;

    closed spec fn view(&self) -> Map<Seq<char>, Run> {
        self.runs@
    }
}

impl Default for Tally {
    fn default() -> (t: Self)
        ensures
            t@ == Map::<Seq<char>, Run>::empty(),
    {
        Tally { runs: StringHashMap::new() }
    }
}

impl Tally {
    fn run(&self, tenant: &str, share: Share) -> (run: Run)
        ensures
            run == run_of(self@, tenant@, share),
    {
        match self.runs.get(tenant) {
            Some(run) if run.share.same(share) => *run,
            _ => Run { share, seen: 0, refused: 0 },
        }
    }

    /// How many requests will have been seen in `tenant`'s run at `share`, the next one
    /// included, unless that is more than can be counted.
    pub fn next_seen(&self, tenant: &str, share: Share) -> (n: Option<u64>)
        ensures
            n == if run_of(self@, tenant@, share).seen < u64::MAX {
                Some((run_of(self@, tenant@, share).seen + 1) as u64)
            } else {
                None
            },
    {
        self.run(tenant, share).seen.checked_add(1)
    }

    /// Count one request of `tenant`'s and say whether it is one of the refused. `quota` is
    /// how many of the requests seen in this run, this one included, `share` comes to.
    pub fn count(&mut self, tenant: &str, share: Share, quota: u64) -> (refusal: Refusal)
        requires
            run_of(old(self)@, tenant@, share).seen < u64::MAX,
        ensures
            final(self)@ == counted(old(self)@, tenant@, share, quota),
            refusal is Refuse <==> run_of(old(self)@, tenant@, share).refuses(quota),
    {
        let run = self.run(tenant, share);
        let refuse = run.refused < quota;
        let refused: u64 = if refuse { run.refused + 1 } else { run.refused };
        self.runs.insert(tenant.to_owned(), Run { share: run.share, seen: run.seen + 1, refused });
        if refuse {
            Refusal::Refuse
        } else {
            Refusal::Pass
        }
    }
}

// ---- the layer ----

/// Refuses a share of each tenant's requests, as `limits` currently says. One tally serves
/// all the services of the layer.
pub struct EnforcerLayer<L> {
    pub limits: L,
    pub tally: Tally,
}

impl<L: Limits> EnforcerLayer<L> {
    pub fn new(limits: L) -> (l: Self)
        ensures
            l.limits == limits,
            l.tally@ == Map::<Seq<char>, Run>::empty(),
    {
        EnforcerLayer { limits, tally: Tally::default() }
    }

    /// Put `inner` behind the limit.
    pub fn layer<S>(&self, inner: S) -> (service: EnforcerService<S>)
        ensures
            service.inner == inner,
    {
        EnforcerService { inner }
    }

    /// The share that the store wants refused of the traffic of whoever sent `req`: what it
    /// answers for the name that `req` gives, clamped.
    pub fn share<Req: Tenant>(&self, req: &Req) -> (share: Share)
        ensures
            exists|tenant: &str, bits: u64|
                {
                    &&& call_ensures(Req::tenant, (req,), tenant)
                    &&& #[trigger] call_ensures(L::drop_pct, (&self.limits, tenant), bits)
                    &&& share@ == clamped(bits)
                },
    {
        let tenant = req.tenant();
        let bits: u64 = self.limits.drop_pct(tenant);
        assert(call_ensures(L::drop_pct, (&self.limits, tenant), bits));
        Share::from_bits(bits)
    }
}

/// An inner service that sees only what the limit lets through.
pub struct EnforcerService<S> {
    pub inner: S,
}

impl<S: Clone> Clone for EnforcerService<S> {
    fn clone(&self) -> (service: Self)
        ensures
            cloned(self.inner, service.inner),
    {
        EnforcerService { inner: self.inner.clone() }
    }
}

impl<S> EnforcerService<S> {
    /// Readiness is that of the inner service: there is no request to judge yet.
    pub fn poll_ready<E>(&self, probe: Readiness<E>) -> (ready: Readiness<TenantQuotaError<E>>)
        ensures
            ready == match probe {
                Readiness::Pending => Readiness::Pending,
                Readiness::Ready => Readiness::Ready,
                Readiness::Failed(e) => Readiness::Failed(TenantQuotaError::Inner(e)),
            },
    {
        match probe {
            Readiness::Pending => Readiness::Pending,
            Readiness::Ready => Readiness::Ready,
            Readiness::Failed(e) => Readiness::Failed(TenantQuotaError::Inner(e)),
        }
    }

    /// Judge a request of `tenant`'s. With [`Refusal::Pass`] the inner service is to be
    /// called with it.
    pub fn call(&mut self, tally: &mut Tally, tenant: &str, share: Share, quota: u64) -> (refusal:
        Refusal)
        requires
            run_of(old(tally)@, tenant@, share).seen < u64::MAX,
        ensures
            *final(self) == *old(self),
            final(tally)@ == counted(old(tally)@, tenant@, share, quota),
            refusal is Refuse <==> run_of(old(tally)@, tenant@, share).refuses(quota),
    {
        tally.count(tenant, share, quota)
    }
}

/// Why a request was not answered.
pub enum TenantQuotaError<E> {
    /// It was refused to hold its tenant inside its share.
    Throttled,
    /// The inner service failed.
    Inner(E),
}

/// A request was refused to hold its tenant inside its share of the budget. The server had
/// something to give, but not to this tenant.
#[derive(Clone, Copy)]
pub struct Throttled;

impl<E> TenantQuotaError<E> {
    /// Tells a refusal from a failure of the inner service.
    pub fn throttled(&self) -> (t: Option<Throttled>)
        ensures
            t is Some <==> self is Throttled,
    {
        match self {
            TenantQuotaError::Throttled => Some(Throttled),
            TenantQuotaError::Inner(_) => None,
        }
    }
}

/// The response to a request: that of the inner service, or the refusal.
pub enum ResponseFuture<F> {
    Inner { future: F },
    Refused,
}

impl<F> ResponseFuture<F> {
    /// The answer so far. `polled` is what polling the inner future came to, `None` while
    /// it has no answer, and is read only where there is an inner future.
    pub fn poll<T, E>(&self, polled: Option<Result<T, E>>) -> (answer: Option<
        Result<T, TenantQuotaError<E>>,
    >)
        ensures
            answer == match (*self, polled) {
                (ResponseFuture::Refused, _) => Some(Err(TenantQuotaError::Throttled)),
                (ResponseFuture::Inner { .. }, Some(Ok(t))) => Some(Ok(t)),
                (ResponseFuture::Inner { .. }, Some(Err(e))) => Some(
                    Err(TenantQuotaError::Inner(e)),
                ),
                (ResponseFuture::Inner { .. }, None) => None,
            },
    {
        match self {
            ResponseFuture::Inner { .. } => match polled {
                Some(Ok(t)) => Some(Ok(t)),
                Some(Err(e)) => Some(Err(TenantQuotaError::Inner(e))),
                None => None,
            },
            ResponseFuture::Refused => Some(Err(TenantQuotaError::Throttled)),
        }
    }
}

// ---- laws ----

/// The run after `n` requests at one share, when request `k` has the quota `quota(k)`.
pub open spec fn run_after(share: Share, quota: spec_fn(nat) -> u64, n: nat) -> Run
    decreases n,
{
    if n == 0 {
        Run::fresh(share)
    } else {
        run_after(share, quota, (n - 1) as nat).counted(quota(n))
    }
}

/// A quota that starts at nothing and grows by at most one with each request.
pub open spec fn gradual(quota: spec_fn(nat) -> u64, n: nat) -> bool {
    &&& quota(0) == 0
    &&& forall|k: nat| k < n ==> grows(quota, k)
}

/// From request `k` to the next the quota stays or grows by one.
pub open spec fn grows(quota: spec_fn(nat) -> u64, k: nat) -> bool {
    quota(k) <= quota((k + 1) as nat) <= quota(k) + 1
}

/// The refusals follow the quota: after `n` requests exactly as many are refused as the
/// quota says, and request `n` is one of them exactly where it made the quota grow.
pub proof fn law_refusals_follow_the_quota(share: Share, quota: spec_fn(nat) -> u64, n: nat)
    requires
        n <= u64::MAX,
        gradual(quota, n),
    ensures
        run_after(share, quota, n).seen == n,
        run_after(share, quota, n).refused == quota(n),
        n > 0 ==> (run_after(share, quota, (n - 1) as nat).refuses(quota(n)) <==> quota(n)
            > quota((n - 1) as nat)),
    decreases n,
{
    if n > 0 {
        law_refusals_follow_the_quota(share, quota, (n - 1) as nat);
        assert(grows(quota, (n - 1) as nat));
    }
}

/// How many of `k` requests a share of `part` in `whole` comes to.
pub open spec fn portion(part: nat, whole: nat, k: nat) -> u64 {
    (k * part / whole) as u64
}

/// The refused count is the share of the traffic, exactly: over `n` requests at a share of
/// `part` in `whole`, `⌊n · part / whole⌋` are refused.
pub proof fn law_the_refused_count_is_the_share_of_the_traffic(
    share: Share,
    part: nat,
    whole: nat,
    n: nat,
)
    requires
        n <= u64::MAX,
        0 < whole,
        part <= whole,
    ensures
        run_after(share, |k: nat| portion(part, whole, k), n).refused == n * part / whole,
{
    let quota = |k: nat| portion(part, whole, k);
    assert forall|k: nat| k < n implies grows(quota, k) by {
        lemma_portion_grows(part, whole, k, n);
    }
    assert(quota(0) == 0) by {
        assert(0 * part / whole == 0) by (nonlinear_arith)
            requires
                0 < whole,
        ;
    }
    law_refusals_follow_the_quota(share, quota, n);
    lemma_portion_fits(part, whole, n);
}

proof fn lemma_portion_fits(part: nat, whole: nat, k: nat)
    requires
        0 < whole,
        part <= whole,
        k <= u64::MAX,
    ensures
        0 <= k * part / whole <= k,
        portion(part, whole, k) == k * part / whole,
{
    assert(0 <= k * part / whole <= k) by (nonlinear_arith)
        requires
            0 < whole,
            part <= whole,
    ;
}

proof fn lemma_portion_grows(part: nat, whole: nat, k: nat, n: nat)
    requires
        0 < whole,
        part <= whole,
        k < n <= u64::MAX,
    ensures
        portion(part, whole, k) <= portion(part, whole, (k + 1) as nat) <= portion(part, whole, k)
            + 1,
{
    lemma_portion_fits(part, whole, k);
    lemma_portion_fits(part, whole, (k + 1) as nat);
    let low = (k * part) as int;
    let high = ((k + 1) * part) as int;
    assert(high == low + part) by (nonlinear_arith)
        requires
            low == k * part,
            high == (k + 1) * part,
    ;
    let d = whole as int;
    assert(low / d <= high / d <= low / d + 1) by (nonlinear_arith)
        requires
            0 < d,
            low <= high <= low + d,
    ;
}

/// A zero share refuses nobody.
pub proof fn law_a_zero_share_refuses_nobody(share: Share, n: nat)
    requires
        n <= u64::MAX,
    ensures
        run_after(share, |k: nat| 0u64, n).refused == 0,
{
    law_refusals_follow_the_quota(share, |k: nat| 0u64, n);
}

/// A whole share refuses everybody.
pub proof fn law_a_whole_share_refuses_everybody(share: Share, n: nat)
    requires
        0 < n <= u64::MAX,
    ensures
        run_after(share, |k: nat| k as u64, n).refused == n,
        run_after(share, |k: nat| k as u64, (n - 1) as nat).refuses(n as u64),
{
    law_refusals_follow_the_quota(share, |k: nat| k as u64, n);
}

/// Tenants are counted separately: a request of one leaves the runs of the others alone.
pub proof fn law_tenants_are_counted_separately(
    runs: Map<Seq<char>, Run>,
    tenant: Seq<char>,
    share: Share,
    quota: u64,
    other: Seq<char>,
    by: Share,
)
    requires
        other != tenant,
    ensures
        run_of(counted(runs, tenant, share, quota), other, by) == run_of(runs, other, by),
{
}

/// A new share starts a new run: nothing counted under another share has a say.
pub proof fn law_a_new_share_starts_a_new_run(
    runs: Map<Seq<char>, Run>,
    tenant: Seq<char>,
    share: Share,
    quota: u64,
    moved: Share,
)
    requires
        moved@ != share@,
    ensures
        run_of(counted(runs, tenant, share, quota), tenant, moved) == Run::fresh(moved),
{
}

/// A run goes on while the share stays: each request of a tenant's is counted on top of
/// those before it.
pub proof fn law_a_run_goes_on_at_its_share(
    runs: Map<Seq<char>, Run>,
    tenant: Seq<char>,
    share: Share,
    quota: u64,
)
    requires
        is_number(share@),
    ensures
        run_of(counted(runs, tenant, share, quota), tenant, share) == run_of(
            runs,
            tenant,
            share,
        ).counted(quota),
{
}

/// Every share lies between zero and one, and clamping changes none of those.
pub proof fn law_shares_lie_between_zero_and_one(bits: u64)
    requires
        is_number(bits),
    ensures
        0 <= clamped(bits) <= ONE,
        bits <= ONE ==> clamped(bits) == bits,
        clamped(clamped(bits)) == clamped(bits),
{
}

/// A request as the tally counts it.
pub struct Call {
    pub tenant: Seq<char>,
    pub share: Share,
    pub quota: u64,
}

/// The runs after some calls on an empty tally.
pub open spec fn tallied(calls: Seq<Call>) -> Map<Seq<char>, Run>
    decreases calls.len(),
{
    if calls.len() == 0 {
        Map::empty()
    } else {
        let last = calls.last();
        counted(tallied(calls.drop_last()), last.tenant, last.share, last.quota)
    }
}

/// The calls that are `tenant`'s, in order.
pub open spec fn own(calls: Seq<Call>, tenant: Seq<char>) -> Seq<Call>
    decreases calls.len(),
{
    if calls.len() == 0 {
        Seq::empty()
    } else if calls.last().tenant == tenant {
        own(calls.drop_last(), tenant).push(calls.last())
    } else {
        own(calls.drop_last(), tenant)
    }
}

/// How many of `tenant`'s calls were refused.
pub open spec fn refusals(calls: Seq<Call>, tenant: Seq<char>) -> nat
    decreases calls.len(),
{
    if calls.len() == 0 {
        0
    } else {
        let last = calls.last();
        let before = tallied(calls.drop_last());
        refusals(calls.drop_last(), tenant) + (if last.tenant == tenant && run_of(
            before,
            tenant,
            last.share,
        ).refuses(last.quota) {
            1nat
        } else {
            0nat
        })
    }
}

/// A tenant's run is made of its own calls: however those of others are mixed in, at
/// whatever shares, they change nothing about the run, nor about which calls are refused.
pub proof fn law_other_tenants_change_nothing(calls: Seq<Call>, tenant: Seq<char>, share: Share)
    ensures
        run_of(tallied(calls), tenant, share) == run_of(
            tallied(own(calls, tenant)),
            tenant,
            share,
        ),
        refusals(calls, tenant) == refusals(own(calls, tenant), tenant),
{
    lemma_own_calls(calls, tenant);
}

proof fn lemma_own_calls(calls: Seq<Call>, tenant: Seq<char>)
    ensures
        tallied(calls).contains_key(tenant) == tallied(own(calls, tenant)).contains_key(tenant),
        tallied(calls).contains_key(tenant) ==> tallied(calls)[tenant] == tallied(
            own(calls, tenant),
        )[tenant],
        refusals(calls, tenant) == refusals(own(calls, tenant), tenant),
        forall|i: int|
            0 <= i < own(calls, tenant).len() ==> (#[trigger] own(calls, tenant)[i]).tenant
                == tenant,
    decreases calls.len(),
{
    if calls.len() > 0 {
        let front = calls.drop_last();
        lemma_own_calls(front, tenant);
        if calls.last().tenant == tenant {
            assert(own(calls, tenant).drop_last() =~= own(front, tenant));
        }
    }
}

/// A tenant whose calls are all judged by one share is in the run that these calls alone
/// make: after any mix of calls on an empty tally it is [`run_after`] of its own.
pub proof fn law_a_run_over_any_history(
    calls: Seq<Call>,
    tenant: Seq<char>,
    share: Share,
    quota: spec_fn(nat) -> u64,
)
    requires
        is_number(share@),
        judged_by(own(calls, tenant), share, quota),
    ensures
        run_of(tallied(calls), tenant, share) == run_after(
            share,
            quota,
            own(calls, tenant).len(),
        ),
        own(calls, tenant).len() <= u64::MAX ==> refusals(calls, tenant) == run_after(
            share,
            quota,
            own(calls, tenant).len(),
        ).refused,
    decreases calls.len(),
{
    if calls.len() > 0 {
        let front = calls.drop_last();
        let mine = own(calls, tenant);
        if calls.last().tenant == tenant {
            let before = own(front, tenant);
            assert forall|i: int| 0 <= i < before.len() implies (#[trigger] before[i]).share
                == share && before[i].quota == quota((i + 1) as nat) by {
                assert(mine[i] == before[i]);
            }
            law_a_run_over_any_history(front, tenant, share, quota);
            assert(mine[mine.len() - 1] == calls.last());
            if mine.len() <= u64::MAX {
                lemma_refused_at_most_seen(share, quota, before.len());
            }
        } else {
            law_a_run_over_any_history(front, tenant, share, quota);
        }
    }
}

/// Every one of these calls is judged by `share`, and call `k` has the quota `quota(k)`.
pub open spec fn judged_by(calls: Seq<Call>, share: Share, quota: spec_fn(nat) -> u64) -> bool {
    forall|i: int|
        0 <= i < calls.len() ==> (#[trigger] calls[i]).share == share && calls[i].quota == quota(
            (i + 1) as nat,
        )
}

proof fn lemma_refused_at_most_seen(share: Share, quota: spec_fn(nat) -> u64, n: nat)
    requires
        n <= u64::MAX,
    ensures
        run_after(share, quota, n).seen == n,
        run_after(share, quota, n).refused <= n,
    decreases n,
{
    if n > 0 {
        lemma_refused_at_most_seen(share, quota, (n - 1) as nat);
    }
}

/// The refused count is the share of a tenant's traffic, exactly and at every point of any
/// history: of `n` calls judged by a share of `part` in `whole`, however those of others are
/// mixed in, `⌊n · part / whole⌋` have been refused. None are at a zero share, all are at a
/// whole one.
pub proof fn law_exactly_the_share_is_refused_in_any_history(
    calls: Seq<Call>,
    tenant: Seq<char>,
    share: Share,
    part: nat,
    whole: nat,
)
    requires
        is_number(share@),
        0 < whole,
        part <= whole,
        own(calls, tenant).len() <= u64::MAX,
        judged_by(own(calls, tenant), share, |k: nat| portion(part, whole, k)),
    ensures
        refusals(calls, tenant) == own(calls, tenant).len() * part / whole,
        part == 0 ==> refusals(calls, tenant) == 0,
        part == whole ==> refusals(calls, tenant) == own(calls, tenant).len(),
{
    let n = own(calls, tenant).len();
    law_a_run_over_any_history(calls, tenant, share, |k: nat| portion(part, whole, k));
    law_the_refused_count_is_the_share_of_the_traffic(share, part, whole, n);
    assert(part == 0 ==> n * part / whole == 0) by (nonlinear_arith)
        requires
            0 < whole,
    ;
    assert(part == whole ==> n * part / whole == n) by (nonlinear_arith)
        requires
            0 < whole,
    ;
}

/// A share is the number itself where that lies between zero and one, zero for every number
/// below it, negative zero and minus infinity included, and one for every number above it.
/// What is no number is left as it is.
pub proof fn law_a_share_is_the_nearest_to_the_number(bits: u64)
    ensures
        bits <= 0x3FF0_0000_0000_0000 ==> clamped(bits) == bits,
        0x3FF0_0000_0000_0000 < bits <= 0x7FF0_0000_0000_0000 ==> clamped(bits)
            == 0x3FF0_0000_0000_0000,
        0x8000_0000_0000_0000 <= bits <= 0xFFF0_0000_0000_0000 ==> clamped(bits) == 0,
        0x7FF0_0000_0000_0000 < bits < 0x8000_0000_0000_0000 || bits > 0xFFF0_0000_0000_0000
            ==> clamped(bits) == bits,
        is_number(bits) <==> bits <= 0x7FF0_0000_0000_0000 || 0x8000_0000_0000_0000 <= bits
            <= 0xFFF0_0000_0000_0000,
        bits < 0x8000_0000_0000_0000 ==> magnitude(bits) == bits,
        bits >= 0x8000_0000_0000_0000 ==> magnitude(bits) == bits - 0x8000_0000_0000_0000,
{
}

/// A request is counted once, against its own tenant's run and no other: it is refused exactly
/// where fewer were refused than the quota says, and a refusal is counted as one.
pub proof fn law_a_request_is_counted_once(
    runs: Map<Seq<char>, Run>,
    tenant: Seq<char>,
    share: Share,
    quota: u64,
    other: Seq<char>,
)
    requires
        run_of(runs, tenant, share).seen < u64::MAX,
    ensures
        ({
            let before = run_of(runs, tenant, share);
            let after = counted(runs, tenant, share, quota);
            &&& before.refuses(quota) <==> before.refused < quota
            &&& after.contains_key(tenant)
            &&& after[tenant].share == share
            &&& after[tenant].seen == before.seen + 1
            &&& before.refused < quota ==> after[tenant].refused == before.refused + 1
            &&& before.refused >= quota ==> after[tenant].refused == before.refused
            &&& other != tenant ==> (after.contains_key(other) <==> runs.contains_key(other))
            &&& other != tenant && runs.contains_key(other) ==> after[other] == runs[other]
        }),
{
    let before = run_of(runs, tenant, share);
    if runs.contains_key(tenant) && runs[tenant].continues(share) {
        assert(runs[tenant].share@ == share@);
    }
}

/// The run a request falls into: the tenant's own where it is at this very share, which has to
/// be a number, and otherwise one with nothing seen and nothing refused.
pub proof fn law_a_request_falls_into_its_tenants_run(
    runs: Map<Seq<char>, Run>,
    tenant: Seq<char>,
    share: Share,
)
    ensures
        runs.contains_key(tenant) && runs[tenant].share@ == share@ && is_number(share@) ==> run_of(
            runs,
            tenant,
            share,
        ) == runs[tenant],
        !runs.contains_key(tenant) || runs[tenant].share@ != share@ || !is_number(share@) ==> {
            let run = run_of(runs, tenant, share);
            run.share == share && run.seen == 0 && run.refused == 0
        },
{
}

} // verus!
