//! The CPU gate: idle cores less a reserve.

use taipei::backpressure::{CpuBackpressureLayer, InstrumentedRuntime, RuntimeInstrumentation};
use taipei::debt::DebtSemaphore;
use taipei::ready::Readiness;

fn gate(cores: usize, buffer_pct: f64) -> DebtSemaphore {
    DebtSemaphore::in_debt((cores as f64 * buffer_pct) as usize)
}

#[test]
fn admissions_are_idle_cores_less_the_reserve() {
    let mut sem = gate(8, 0.5);
    for parked in 1..=8usize {
        sem.release();
        assert_eq!(sem.available(), parked.saturating_sub(4));
    }
    for busy in 1..=8usize {
        sem.acquire();
        assert_eq!(sem.available(), (8 - busy).saturating_sub(4));
    }
}

#[test]
fn the_gate_closes_while_every_core_is_busy() {
    let mut sem = gate(8, 0.5);
    for _ in 0..8 {
        sem.release();
    }
    for _ in 0..8 {
        sem.acquire();
    }
    assert_eq!(sem.available(), 0, "a fully-loaded machine admits nothing");
}

#[test]
fn a_pool_counts_permits_and_debt_as_one_balance() {
    let mut sem = DebtSemaphore::new(1);
    sem.acquire();
    assert_eq!((sem.available(), sem.debt()), (0, 0));
    sem.acquire();
    assert_eq!((sem.available(), sem.debt()), (0, 1));
    let place = sem.ask(None).expect("nothing to take");
    sem.leave(place);
    assert_eq!(sem.debt(), 1, "a place given up leaves no trace");
    sem.release();
    sem.release();
    assert_eq!((sem.available(), sem.debt()), (1, 0));
    assert!(sem.ask(None).is_none());
    assert_eq!(sem.available(), 0);
}

struct Machine(RuntimeInstrumentation);

impl InstrumentedRuntime for Machine {
    fn instrumentation(&mut self) -> &mut RuntimeInstrumentation {
        &mut self.0
    }
}

#[test]
fn a_request_holds_its_permit_until_it_is_first_polled() {
    let mut machine = Machine(RuntimeInstrumentation::new(DebtSemaphore::in_debt(1)));
    assert_eq!(machine.instrumentation().debt(), 1);
    for _ in 0..2 {
        machine.instrumentation().parked();
    }
    assert_eq!(machine.instrumentation().available(), 1);

    let layer = CpuBackpressureLayer::new(machine.instrumentation());
    let mut first = layer.layer("inner");
    let mut second = first.clone();
    let gate = layer.semaphore;
    assert!(matches!(first.poll_ready(gate, Readiness::<()>::Ready), Readiness::Ready));
    assert!(!second.reserve(gate), "the only idle core is spoken for");
    assert!(matches!(second.poll_ready(gate, Readiness::<()>::Ready), Readiness::Pending));

    second.retire(gate);

    let mut response = first.call();
    response.poll(gate);
    assert_eq!(gate.available(), 1, "from here on the thread that runs it counts");
    response.poll(gate);
    assert_eq!(gate.available(), 1, "and only once");

    assert!(second.reserve(gate));
    second.retire(gate);
    assert_eq!(gate.available(), 1);

    machine.instrumentation().unparked();
    assert_eq!(machine.instrumentation().available(), 0);
}

#[test]
fn the_balance_is_releases_less_acquires_in_any_order() {
    let mut sem = DebtSemaphore::in_debt(3);
    let mut balance: i64 = -3;
    for k in 0..40u32 {
        if k * k % 7 < 4 {
            sem.release();
            balance += 1;
        } else {
            sem.acquire();
            balance -= 1;
        }
        assert_eq!(sem.available() as i64 - sem.debt() as i64, balance);
        assert!(sem.available() == 0 || sem.debt() == 0);
    }
}

#[test]
fn an_idle_core_goes_to_the_first_in_line() {
    let mut machine = Machine(RuntimeInstrumentation::new(DebtSemaphore::in_debt(1)));
    let layer = CpuBackpressureLayer::new(machine.instrumentation());
    let mut first = layer.layer("inner");
    let mut second = layer.layer("inner");
    let gate = layer.semaphore;
    assert!(!first.reserve(gate));
    gate.release();
    assert!(!first.reserve(gate), "the reserve comes first");
    gate.release();
    assert_eq!(gate.available(), 0, "the idle core is set aside");
    assert!(!second.reserve(gate));
    assert!(first.reserve(gate));

    let mut response = first.call();
    response.poll(gate);
    assert_eq!(gate.available(), 0, "the permit goes straight to the second");
    assert!(second.reserve(gate));
    assert_eq!(machine.instrumentation().debt(), 0);
}

#[test]
fn a_permit_set_aside_for_nobody_comes_back() {
    let mut sem = DebtSemaphore::new(0);
    let first = sem.ask(None).unwrap();
    let second = sem.ask(None).unwrap();
    sem.release();
    assert!(sem.is_granted(first) && !sem.is_granted(second));
    sem.leave(first);
    assert!(sem.is_granted(second));
    sem.acquire();
    assert_eq!(sem.debt(), 1, "a permit set aside is not clawed back");
    sem.leave(second);
    assert_eq!((sem.available(), sem.debt()), (0, 0), "it pays the debt off");
}
