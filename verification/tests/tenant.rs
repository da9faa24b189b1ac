//! Shut-time and who pays for it.

use std::collections::HashMap;
use std::sync::{Arc, Mutex};
use std::time::Duration;
use taipei::ready::Readiness;
use taipei::tenant::{Accumulator, Blame, Gate, Report, Tenant, TenantReporter, OPEN};

#[derive(Clone)]
struct Ledger(Arc<Mutex<HashMap<String, Duration>>>);

impl Ledger {
    fn new() -> Ledger {
        Ledger(Arc::new(Mutex::new(HashMap::new())))
    }

    fn get(&self, tenant: &str) -> Option<Duration> {
        self.0.lock().unwrap().get(tenant).copied()
    }

    fn total(&self) -> Duration {
        self.0.lock().unwrap().values().sum()
    }
}

impl Report for Ledger {
    fn report(&mut self, tenant: &str, blame: Duration) {
        *self.0.lock().unwrap().entry(tenant.to_string()).or_insert(Duration::ZERO) += blame;
    }
}

struct Req(&'static str);

impl Tenant for Req {
    fn tenant(&self) -> &str {
        self.0
    }
}

fn ns(n: u64) -> Duration {
    Duration::from_nanos(n)
}

fn us(n: u64) -> Duration {
    Duration::from_micros(n)
}

/// A time, in microseconds, as the nanosecond count that the accumulator runs on.
fn at(n: u64) -> u64 {
    Accumulator::nanos(us(n))
}

fn leave(mut blame: Blame<Ledger>, reporter: &mut TenantReporter<Ledger>, now: u64) {
    blame.finalize(&mut reporter.acc, now);
}

#[test]
fn every_gate_word_round_trips() {
    for word in [0, 1, 12_345, OPEN - 1, OPEN] {
        assert_eq!(Gate::decode(word).encode(), word, "{word} did not survive the round trip");
    }
    assert_eq!(Gate::decode(OPEN), Gate::Open);
    assert_eq!(Gate::decode(7), Gate::Shut { since: 7 });
    assert_eq!(
        Gate::decode(Gate::Shut { since: OPEN }.encode()),
        Gate::Shut { since: OPEN - 1 }
    );
}

#[test]
fn shut_time_splits_evenly_and_conserves() {
    let l = Ledger::new();
    let mut reporter = TenantReporter::new(l.clone());
    let a = reporter.admit_request("a", 0);
    let b = reporter.admit_request("b", 0);

    reporter.acc.accrue(ns(1000));
    reporter.acc.accrue(ns(500));
    leave(a, &mut reporter, 0);
    leave(b, &mut reporter, 0);

    let (a, b) = (l.get("a").unwrap(), l.get("b").unwrap());
    assert_eq!(a, ns(750), "even split of the 1500 ns of shut-time across two");
    assert_eq!(b, ns(750));
    assert_eq!(a + b, reporter.accumulated(), "bills sum to the distributable whole");
    assert_eq!(reporter.meter(), ns(750));
}

#[test]
fn membership_reweights_the_share() {
    let l = Ledger::new();
    let mut reporter = TenantReporter::new(l.clone());
    let a = reporter.admit_request("a", 0);
    reporter.acc.accrue(ns(100));
    let b = reporter.admit_request("b", 0);
    reporter.acc.accrue(ns(200));
    leave(a, &mut reporter, 0);
    leave(b, &mut reporter, 0);

    let (a, b) = (l.get("a").unwrap(), l.get("b").unwrap());
    assert_eq!(a, ns(200), "100 alone + 100 shared");
    assert_eq!(b, ns(100), "joined only for the halved span");
    assert_eq!(a + b, reporter.accumulated());
}

#[test]
fn drawing_often_costs_no_more_than_drawing_once() {
    let l = Ledger::new();
    let mut reporter = TenantReporter::new(l.clone());
    let mut eager = reporter.admit_request("eager", 0);
    let lazy = reporter.admit_request("lazy", 0);
    for _ in 0..4 {
        reporter.acc.accrue(ns(3));
        eager.draw(&mut reporter.acc);
    }
    leave(eager, &mut reporter, 0);
    leave(lazy, &mut reporter, 0);

    assert_eq!(l.get("eager"), l.get("lazy"), "the drawing schedule does not change the bill");
    assert_eq!(l.get("eager"), Some(ns(4)), "four spans of 3 halved and floored");
    assert_eq!(
        reporter.accumulated() - reporter.attributed(),
        ns(4),
        "the halves are the slack"
    );
}

#[test]
fn blame_survives_the_meter_rolling_over() {
    let l = Ledger::new();
    let mut reporter = TenantReporter::new(l.clone());
    reporter.acc.rate = u64::MAX - 2;
    reporter.acc.accumulated = 100;
    let r = reporter.admit_request("late", 0);
    reporter.acc.rate = reporter.acc.rate.wrapping_add(5);
    leave(r, &mut reporter, 0);
    assert_eq!(l.get("late"), Some(ns(5)));
}

#[test]
fn attributed_never_exceeds_accumulated() {
    let l = Ledger::new();
    let mut reporter = TenantReporter::new(l.clone());
    let a = reporter.admit_request("a", 0);
    let b = reporter.admit_request("b", 0);
    reporter.acc.accrue(ns(100));
    reporter.acc.rate = reporter.acc.rate.wrapping_add(1000);
    leave(a, &mut reporter, 0);
    leave(b, &mut reporter, 0);

    assert_eq!(l.total(), reporter.attributed(), "the ledger sums to the attributed total");
    assert_eq!(
        reporter.attributed(),
        reporter.accumulated(),
        "attribution fills the whole but the clamp holds it there"
    );
    assert!(reporter.attributed() <= reporter.accumulated());
}

#[test]
fn an_open_gate_mints_nothing() {
    let l = Ledger::new();
    let mut reporter = TenantReporter::new(l.clone());
    let mut svc = reporter.layer("inner");

    let ready = svc.poll_ready(&mut reporter, at(0), Readiness::<()>::Ready);
    assert!(matches!(ready, Readiness::Ready), "it opens immediately");
    let mut fut = svc.call(&mut reporter, at(0), &Req("acme"));
    assert_eq!(fut.poll(&mut reporter.acc, at(0), false), None);
    assert!(fut.poll(&mut reporter.acc, at(500), true).is_some());

    assert_eq!(reporter.accumulated(), Duration::ZERO, "an open gate is free residency");
    assert_eq!(reporter.unattributed(), Duration::ZERO);
    assert_eq!(l.get("acme"), Some(Duration::ZERO));
}

#[test]
fn a_shut_gate_bills_the_occupier_holding_it_shut() {
    let l = Ledger::new();
    let mut reporter = TenantReporter::new(l.clone());
    let mut svc = reporter.layer("inner");

    svc.poll_ready(&mut reporter, at(0), Readiness::<()>::Ready);
    let mut hog = svc.call(&mut reporter, at(0), &Req("hog"));
    let ready = svc.poll_ready(&mut reporter, at(0), Readiness::<()>::Pending);
    assert!(matches!(ready, Readiness::Pending), "now it is shut");
    assert!(reporter.shut());

    let ready = svc.poll_ready(&mut reporter, at(400), Readiness::<()>::Ready);
    assert!(matches!(ready, Readiness::Ready));
    assert!(!reporter.shut());

    assert_eq!(reporter.accumulated(), us(400), "the pending span is the shut-time");
    assert_eq!(hog.poll(&mut reporter.acc, at(400), true), Some(us(400)));
    assert_eq!(l.get("hog"), Some(us(400)), "the lone occupier owes it all");
}

#[test]
fn membership_changes_flush_the_running_span() {
    let l = Ledger::new();
    let mut reporter = TenantReporter::new(l.clone());

    let a = reporter.admit_request("a", at(0));
    reporter.acc.shut(at(0));

    leave(a, &mut reporter, at(10));
    let b = reporter.admit_request("b", at(20));
    reporter.acc.open(at(30));
    leave(b, &mut reporter, at(30));

    assert_eq!(l.get("a"), Some(us(10)), "billed only for the leg it was present for");
    assert_eq!(l.get("b"), Some(us(10)));
    assert_eq!(reporter.unattributed(), us(10), "the leg with no occupier is nobody's fault");
    assert_eq!(
        reporter.accumulated(),
        us(20),
        "the distributable whole excludes the empty leg"
    );
}

#[test]
fn settling_reads_the_span_without_changing_it() {
    let l = Ledger::new();
    let mut reporter = TenantReporter::new(l.clone());

    let hog = reporter.admit_request("hog", at(0));
    reporter.acc.shut(at(0));
    let mut seen = Vec::new();
    let mut last = reporter.meter();
    for k in 1..=3 {
        reporter.settle(at(10 * k));
        seen.push(reporter.meter() - last);
        last = reporter.meter();
    }
    assert_eq!(seen, vec![us(10), us(10), us(10)], "each settled span is the time it covered");

    leave(hog, &mut reporter, at(30));
    assert_eq!(reporter.accumulated(), us(30), "the whole is what elapsed, settled or not");
    assert_eq!(l.get("hog"), Some(us(30)), "and the bill is unmoved");
}

#[test]
fn a_dropped_request_leaves_and_reports_exactly_once() {
    let l = Ledger::new();
    let mut reporter = TenantReporter::new(l.clone());

    let mut svc = reporter.layer("inner").clone();
    svc.poll_ready(&mut reporter, at(0), Readiness::<()>::Ready);
    let mut fut = svc.call(&mut reporter, at(0), &Req("acme"));
    assert_eq!(fut.poll(&mut reporter.acc, at(0), false), None);
    assert_eq!(reporter.inflight(), 1, "the occupier is in flight while polling");

    assert_eq!(fut.abandon(&mut reporter.acc, at(0)), Some(Duration::ZERO));
    assert_eq!(reporter.inflight(), 0, "dropping the future leaves the occupier set");
    assert_eq!(l.get("acme"), Some(Duration::ZERO), "it was never shut");
    assert_eq!(fut.abandon(&mut reporter.acc, at(0)), None, "reported exactly once");
    assert_eq!(fut.poll(&mut reporter.acc, at(0), true), None);
    assert_eq!(reporter.inflight(), 0);
}

#[test]
fn a_panicking_occupier_still_leaves_and_pays_what_it_owes() {
    let l = Ledger::new();
    let mut reporter = TenantReporter::new(l.clone());
    let mut svc = reporter.layer("inner");
    let mut fut = svc.call(&mut reporter, at(0), &Req("acme"));
    reporter.acc.shut(at(0));

    // The inner future unwinds, and the request is dropped on the way.
    fut.abandon(&mut reporter.acc, at(250));

    assert_eq!(reporter.inflight(), 0, "the panicking occupier still left the set");
    assert_eq!(l.get("acme"), Some(us(250)), "the shut-time it held was billed, not lost");
}

#[test]
fn a_span_is_banked_once_however_often_it_is_flushed() {
    let mut reporter = TenantReporter::new(Ledger::new());
    let _occupier = reporter.admit_request("t", 0);
    reporter.acc.gate = Gate::Shut { since: 0 }.encode();
    for _ in 0..1_000 {
        reporter.acc.flush(1_000_000);
    }
    assert_eq!(reporter.accumulated(), ns(1_000_000), "the span is banked exactly once");
}

#[test]
fn claims_are_granted_as_far_as_there_is_room() {
    let mut acc = Accumulator::new();
    acc.enter(0);
    acc.accrue(ns(100));
    assert_eq!(acc.attribute(ns(30)), ns(30));
    assert_eq!(acc.attribute(ns(100)), ns(70));
    assert_eq!(acc.attribute(ns(1)), Duration::ZERO);
    acc.leave(0);
    acc.accrue(ns(5));
    assert_eq!((acc.accumulated, acc.unattributed, acc.attributed), (100, 5, 100));
}

#[test]
fn a_failing_inner_opens_the_gate() {
    let mut reporter = TenantReporter::new(Ledger::new());
    let mut svc = reporter.layer("inner");
    svc.poll_ready(&mut reporter, at(0), Readiness::<()>::Pending);
    let ready = svc.poll_ready(&mut reporter, at(7), Readiness::Failed("broken"));
    assert!(matches!(ready, Readiness::Failed("broken")));
    assert!(!reporter.shut());
    assert_eq!(reporter.unattributed(), us(7));
}

#[test]
fn any_history_keeps_the_head_count_and_the_ledger() {
    let l = Ledger::new();
    let mut reporter = TenantReporter::new(l.clone());
    let mut here: Vec<Blame<Ledger>> = Vec::new();
    let mut arrived = 0;
    let mut left = 0;
    for k in 0..50u64 {
        match k % 5 {
            0 | 1 => {
                here.push(reporter.admit_request(["a", "b", "c"][(k % 3) as usize], k));
                arrived += 1;
            }
            2 => reporter.acc.shut(k),
            3 => {
                here[0].draw(&mut reporter.acc);
                reporter.acc.accrue(ns(7));
            }
            _ => {
                reporter.acc.open(k);
                leave(here.remove(0), &mut reporter, k);
                left += 1;
            }
        }
        assert_eq!(reporter.inflight(), arrived - left);
        assert!(reporter.attributed() <= reporter.accumulated());
        assert!(l.total() <= reporter.attributed());
    }
    for blame in here {
        leave(blame, &mut reporter, 50);
    }
    assert_eq!(reporter.inflight(), 0);
    assert_eq!(l.total(), reporter.attributed(), "the bills add up once everyone has left");
}

#[test]
fn a_request_is_billed_to_its_sender_once() {
    let l = Ledger::new();
    let mut reporter = TenantReporter::new(l.clone());
    let mut blame = reporter.admit_request("sender", 0);
    reporter.acc.accrue(ns(9));
    assert_eq!(blame.finalize(&mut reporter.acc, 0), Some(ns(9)));
    assert_eq!(blame.finalize(&mut reporter.acc, 0), None);
    assert_eq!(l.get("sender"), Some(ns(9)));
    assert_eq!(l.total(), ns(9));
}

/// Counts the bills handed in through it and its clones.
#[derive(Clone)]
struct Counter(Arc<Mutex<Vec<(String, Duration)>>>);

impl Report for Counter {
    fn report(&mut self, tenant: &str, blame: Duration) {
        self.0.lock().unwrap().push((tenant.to_string(), blame));
    }
}

#[test]
fn a_bill_is_handed_in_exactly_once() {
    let bills = Arc::new(Mutex::new(Vec::new()));
    let mut reporter = TenantReporter::new(Counter(bills.clone()));
    let mut svc = reporter.layer("inner");
    let mut future = svc.call(&mut reporter, 0, &Req("acme"));
    reporter.acc.accrue(ns(4));
    assert_eq!(future.poll(&mut reporter.acc, 1, false), None);
    assert!(bills.lock().unwrap().is_empty(), "nothing before it is done");
    assert_eq!(future.poll(&mut reporter.acc, 2, true), Some(ns(4)));
    assert_eq!(future.poll(&mut reporter.acc, 3, true), None);
    assert_eq!(future.abandon(&mut reporter.acc, 4), None);
    assert_eq!(*bills.lock().unwrap(), vec![("acme".to_string(), ns(4))]);

    let mut dropped = svc.call(&mut reporter, 5, &Req("dropped"));
    assert_eq!(dropped.abandon(&mut reporter.acc, 6), Some(ns(0)));
    assert_eq!(dropped.poll(&mut reporter.acc, 7, true), None);
    assert_eq!(bills.lock().unwrap().len(), 2);
}
