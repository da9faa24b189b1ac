//! Refusing a share of a tenant's traffic.

use std::collections::HashMap;
use std::sync::Mutex;
use std::time::Duration;
use taipei::rate_limit::{
    EnforcerLayer, EnforcerService, Limits, Refusal, ResponseFuture, Share, Tally,
    TenantQuotaError,
};
use taipei::ready::Readiness;
use taipei::tenant::Tenant;

struct Req(&'static str);

impl Tenant for Req {
    fn tenant(&self) -> &str {
        self.0
    }
}

/// A store the test writes the answer into, and which records what was banked against it.
#[derive(Default)]
struct Fixed {
    shares: Mutex<HashMap<&'static str, f64>>,
    banked: Mutex<Vec<(String, Duration)>>,
}

impl Fixed {
    fn at(shares: &[(&'static str, f64)]) -> Fixed {
        let shares = Mutex::new(shares.iter().copied().collect());
        Fixed { shares, ..Fixed::default() }
    }

    fn set(&self, tenant: &'static str, share: f64) {
        self.shares.lock().unwrap().insert(tenant, share);
    }
}

impl Limits for Fixed {
    fn write_blame(&self, tenant: &str, blame: Duration) {
        self.banked.lock().unwrap().push((tenant.to_owned(), blame));
    }

    fn drop_pct(&self, tenant: &str) -> u64 {
        self.shares.lock().unwrap().get(tenant).copied().unwrap_or(0.0).to_bits()
    }
}

/// How many of the requests seen in this run a share comes to.
fn quota(tally: &Tally, tenant: &str, share: Share) -> u64 {
    (tally.next_seen(tenant, share).unwrap() as f64 * f64::from_bits(share.to_bits())) as u64
}

/// Send one request and say whether it was refused.
fn send(layer: &mut EnforcerLayer<Fixed>, svc: &mut EnforcerService<()>, req: Req) -> bool {
    let share = layer.share(&req);
    let quota = quota(&layer.tally, req.tenant(), share);
    svc.call(&mut layer.tally, req.tenant(), share, quota) == Refusal::Refuse
}

/// Send `n` requests from one tenant and report which of them were refused.
fn run(limits: Fixed, tenant: &'static str, n: usize) -> Vec<bool> {
    let mut layer = EnforcerLayer::new(limits);
    let mut svc = layer.layer(());
    (0..n).map(|_| send(&mut layer, &mut svc, Req(tenant))).collect()
}

#[test]
fn a_tenant_the_store_has_never_heard_of_is_not_limited() {
    assert_eq!(run(Fixed::at(&[]), "Alice", 8), vec![false; 8]);
}

#[test]
fn a_zero_share_admits_everything() {
    let limits = Fixed::at(&[("Alice", 0.0)]);
    assert_eq!(run(limits, "Alice", 8), vec![false; 8]);
}

#[test]
fn half_a_share_refuses_every_other_request() {
    let limits = Fixed::at(&[("Alice", 0.5)]);
    assert_eq!(
        run(limits, "Alice", 6),
        vec![false, true, false, true, false, true],
        "the refusals are spaced, not clustered",
    );
}

#[test]
fn a_whole_share_refuses_everything() {
    let limits = Fixed::at(&[("Alice", 1.0)]);
    assert_eq!(run(limits, "Alice", 5), vec![true; 5]);
}

#[test]
fn the_refused_count_is_the_share_of_the_traffic() {
    for (share, n, want) in [(0.25, 100, 25), (0.1, 100, 10), (0.75, 40, 30), (0.3, 10, 3)] {
        let limits = Fixed::at(&[("Alice", share)]);
        let refused = run(limits, "Alice", n).iter().filter(|&&r| r).count();
        assert_eq!(refused, want, "{n} requests at a share of {share}");
    }
}

#[test]
fn tenants_are_charged_separately() {
    let mut layer = EnforcerLayer::new(Fixed::at(&[("Alice", 1.0), ("Bob", 0.0)]));
    let mut svc = layer.layer(());
    for tenant in ["Alice", "Bob", "Alice", "Bob"] {
        let refused = send(&mut layer, &mut svc, Req(tenant));
        assert_eq!(refused, tenant == "Alice", "{tenant}");
    }
}

#[test]
fn clones_share_one_tally() {
    let mut layer = EnforcerLayer::new(Fixed::at(&[("Alice", 0.5)]));
    let svc = layer.layer(());
    let mut refused = Vec::new();
    for _ in 0..6 {
        let mut per_request = svc.clone();
        refused.push(send(&mut layer, &mut per_request, Req("Alice")));
    }
    assert_eq!(refused, vec![false, true, false, true, false, true]);
}

#[test]
fn a_new_share_starts_a_new_run() {
    let mut layer = EnforcerLayer::new(Fixed::at(&[("Alice", 1.0)]));
    let mut svc = layer.layer(());
    let mut refused = Vec::new();
    for at in 0..8 {
        if at == 4 {
            layer.limits.set("Alice", 0.0);
        }
        refused.push(send(&mut layer, &mut svc, Req("Alice")));
    }
    assert_eq!(refused, vec![true, true, true, true, false, false, false, false]);

    layer.limits.set("Alice", 0.5);
    let mut refused = Vec::new();
    for _ in 0..4 {
        refused.push(send(&mut layer, &mut svc, Req("Alice")));
    }
    assert_eq!(
        refused,
        vec![false, true, false, true],
        "counted from the change, not from zero"
    );
}

#[test]
fn blame_written_reaches_the_store() {
    let limits = Fixed::at(&[]);
    limits.write_blame("Alice", Duration::from_micros(40));
    assert_eq!(
        *limits.banked.lock().unwrap(),
        vec![("Alice".to_owned(), Duration::from_micros(40))],
    );
}

#[test]
fn shares_are_clamped() {
    let share = |x: f64| f64::from_bits(Share::from_bits(x.to_bits()).to_bits());
    assert_eq!(share(-3.5), 0.0);
    assert_eq!(share(-0.0).to_bits(), 0.0f64.to_bits());
    assert_eq!(share(f64::NEG_INFINITY), 0.0);
    assert_eq!(share(0.0), 0.0);
    assert_eq!(share(0.3), 0.3);
    assert_eq!(share(1.0), 1.0);
    assert_eq!(share(1.0000000000000002), 1.0);
    assert_eq!(share(f64::INFINITY), 1.0);
    assert!(share(f64::NAN).is_nan());
    let nan = Share::from_bits(f64::NAN.to_bits());
    assert!(!nan.same(nan));
}

#[test]
fn a_share_that_is_no_number_refuses_nobody() {
    let limits = Fixed::at(&[("Alice", f64::NAN)]);
    assert_eq!(run(limits, "Alice", 4), vec![false; 4]);
    let mut tally = Tally::default();
    let nan = Share::from_bits(f64::NAN.to_bits());
    assert_eq!(tally.count("Alice", nan, 0), Refusal::Pass);
    assert_eq!(tally.next_seen("Alice", nan), Some(1), "every request starts a run of its own");
}

#[test]
fn readiness_and_answers_are_those_of_the_inner_service() {
    let layer = EnforcerLayer::new(Fixed::at(&[]));
    let svc = layer.layer(());
    assert!(matches!(svc.poll_ready(Readiness::<u8>::Pending), Readiness::Pending));
    assert!(matches!(svc.poll_ready(Readiness::<u8>::Ready), Readiness::Ready));
    assert!(matches!(
        svc.poll_ready(Readiness::Failed(4u8)),
        Readiness::Failed(TenantQuotaError::Inner(4))
    ));

    let inner = ResponseFuture::Inner { future: () };
    assert!(inner.poll::<u8, u8>(None).is_none());
    assert!(matches!(inner.poll(Some(Ok::<u8, u8>(1))), Some(Ok(1))));
    let failed = inner.poll(Some(Err::<u8, u8>(2))).unwrap().unwrap_err();
    assert!(failed.throttled().is_none());
    let refused = ResponseFuture::<()>::Refused;
    let error = refused.poll(Some(Ok::<u8, u8>(1))).unwrap().unwrap_err();
    assert!(error.throttled().is_some());
}

#[test]
fn the_share_is_exact_however_tenants_are_mixed() {
    let mut layer = EnforcerLayer::new(Fixed::at(&[("Alice", 0.25), ("Bob", 1.0)]));
    let mut svc = layer.layer(());
    let mut refused = 0;
    for k in 1..=40u32 {
        if k % 3 == 0 {
            layer.limits.set("Bob", if k % 2 == 0 { 1.0 } else { 0.5 });
            send(&mut layer, &mut svc, Req("Bob"));
        }
        refused += send(&mut layer, &mut svc, Req("Alice")) as u32;
        assert_eq!(refused, k / 4, "after {k} of Alice's requests");
        send(&mut layer, &mut svc, Req("Carol"));
    }
}
