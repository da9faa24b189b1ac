//! Virtual time: parking, firing, scopes.

use std::sync::{Arc, Mutex};
use std::task::{Wake, Waker};
use std::time::Duration;
use taipei::clock::{current, sleep, sleep_until, Clock, Instant, Scope};

struct Flag(Mutex<bool>);

impl Flag {
    fn raised(&self) -> bool {
        *self.0.lock().unwrap()
    }
}

impl Wake for Flag {
    fn wake(self: Arc<Self>) {
        *self.0.lock().unwrap() = true;
    }
}

fn waker() -> (Arc<Flag>, Waker) {
    let flag = Arc::new(Flag(Mutex::new(false)));
    (flag.clone(), Waker::from(flag))
}

/// Names itself in a shared list when woken.
struct Named(&'static str, Arc<Mutex<Vec<&'static str>>>);

impl Wake for Named {
    fn wake(self: Arc<Self>) {
        self.1.lock().unwrap().push(self.0);
    }
}

fn fire_due(clock: &mut Clock) {
    for waker in clock.fire_due() {
        waker.wake();
    }
}

#[test]
fn sleepers_park_and_fire_on_advance() {
    let mut clock = Clock::new();
    let (flag, waker) = waker();

    // Park: pending, registered, and not self-woken.
    let mut s = clock.sleep(Duration::from_micros(100));
    assert!(!s.poll(&mut clock, waker.clone()));
    assert!(!flag.raised(), "a parked sleeper must not spin");
    assert_eq!(clock.next_deadline(), Some(Instant::from_micros(100)));

    // A later sleeper doesn't change the earliest deadline.
    let mut s2 = clock.sleep(Duration::from_micros(300));
    assert!(!s2.poll(&mut clock, waker.clone()));
    assert_eq!(clock.next_deadline(), Some(Instant::from_micros(100)));

    // Advance past the deadline and fire: exactly the due sleeper wakes.
    clock.advance_to(Instant::from_micros(150));
    fire_due(&mut clock);
    assert!(flag.raised(), "due sleeper must be woken");
    assert!(s.poll(&mut clock, waker.clone()));
    assert_eq!(clock.next_deadline(), Some(Instant::from_micros(300)));

    // Cancellation: the remaining sleeper disarms its deadline.
    s2.cancel(&mut clock);
    assert_eq!(clock.next_deadline(), None);
}

#[test]
fn clocks_are_independent() {
    let mut a = Clock::new();
    let mut b = Clock::new();
    let (flag_a, waker_a) = waker();

    let mut s = a.sleep(Duration::from_micros(100));
    assert!(!s.poll(&mut a, waker_a.clone()));

    // Another clock advancing moves neither a's time nor a's sleepers.
    b.advance_to(Instant::from_micros(10_000));
    fire_due(&mut b);
    assert_eq!(a.now(), Instant::from_micros(0));
    assert_eq!(b.next_deadline(), None);
    assert!(!flag_a.raised(), "b's advance must not wake a's sleeper");
    assert!(!s.poll(&mut a, waker_a.clone()));

    a.advance_to(Instant::from_micros(100));
    fire_due(&mut a);
    assert!(s.poll(&mut a, waker_a));
}

#[test]
fn ambient_scope_resolves_the_entered_clock() {
    let mut scope: Scope<Clock> = Scope::new();
    let mut a = Clock::new();
    a.advance_to(Instant::from_micros(42));
    {
        let in_a = a.enter(&mut scope);
        assert_eq!(Instant::now(&scope), Instant::from_micros(42));
        // A sleep created in scope binds a: it parks on a's timer queue.
        let (_, waker) = waker();
        let mut s = sleep(&scope, Duration::from_micros(8));
        assert!(!s.poll(current(&mut scope), waker));
        let mut a = in_a.leave(&mut scope).unwrap();
        assert_eq!(a.next_deadline(), Some(Instant::from_micros(50)));
    }
    assert!(scope.is_empty());
}

#[test]
fn leaving_a_nested_scope_restores_the_outer_clock() {
    let mut scope: Scope<Clock> = Scope::new();
    let mut outer = Clock::new();
    outer.advance_to(Instant::from_micros(1));
    let mut inner = Clock::new();
    inner.advance_to(Instant::from_micros(2));
    let in_outer = outer.enter(&mut scope);
    let in_inner = inner.enter(&mut scope);
    assert_eq!(Instant::now(&scope).as_micros(), 2);
    assert!(in_inner.leave(&mut scope).is_some());
    assert_eq!(Instant::now(&scope).as_micros(), 1);
    assert_eq!(scope.innermost().now().as_micros(), 1);
    assert!(in_outer.leave(&mut scope).is_some());
    assert!(scope.is_empty());
}

#[test]
fn time_never_runs_backwards() {
    let mut clock = Clock::default();
    clock.advance_to(Instant::from_micros(10));
    clock.advance_to(Instant::from_micros(4));
    assert_eq!(clock.now(), Instant::from_micros(10));
}

#[test]
fn sleepers_fire_by_deadline_and_then_by_registration() {
    let mut clock = Clock::new();
    let woken = Arc::new(Mutex::new(Vec::new()));
    let named = |name| Waker::from(Arc::new(Named(name, woken.clone())));
    let mut late = clock.sleep(Duration::from_micros(30));
    let mut first = clock.sleep(Duration::from_micros(10));
    let mut second = clock.sleep(Duration::from_micros(10));
    let mut beyond = clock.sleep(Duration::from_micros(31));
    assert!(!late.poll(&mut clock, named("late")));
    assert!(!first.poll(&mut clock, named("first")));
    assert!(!second.poll(&mut clock, named("second")));
    assert!(!beyond.poll(&mut clock, named("beyond")));
    clock.advance_to(Instant::from_micros(30));
    fire_due(&mut clock);
    assert_eq!(*woken.lock().unwrap(), vec!["first", "second", "late"]);
    assert_eq!(clock.next_deadline(), Some(Instant::from_micros(31)));
}

#[test]
fn a_sleeper_polled_again_keeps_its_place_and_wakes_the_last_waker() {
    let mut clock = Clock::new();
    let (stale, old_waker) = waker();
    let (fresh, new_waker) = waker();
    let mut s = clock.sleep(Duration::from_micros(5));
    assert!(!s.poll(&mut clock, old_waker));
    assert!(!s.poll(&mut clock, new_waker));
    clock.advance_to(Instant::from_micros(5));
    fire_due(&mut clock);
    assert!(!stale.raised());
    assert!(fresh.raised());
}

#[test]
fn a_sleep_that_is_due_at_once_never_parks() {
    let mut clock = Clock::new();
    clock.advance_to(Instant::from_micros(9));
    let mut scope: Scope<Clock> = Scope::new();
    let inside = clock.enter(&mut scope);
    let (_, waker) = waker();
    let mut s = sleep_until(&scope, Instant::from_micros(9));
    assert!(s.poll(current(&mut scope), waker));
    let mut clock = inside.leave(&mut scope).unwrap();
    assert_eq!(clock.next_deadline(), None);
}

#[test]
fn instants_saturate_and_measure() {
    let t = Instant::from_micros(7);
    assert_eq!(t + Duration::from_nanos(2_999), Instant::from_micros(9));
    let mut u = t;
    u += Duration::from_micros(u64::MAX);
    assert_eq!(u.as_micros(), u64::MAX);
    assert_eq!(Instant::from_micros(9).duration_since(t), Duration::from_micros(2));
    assert_eq!(t.duration_since(Instant::from_micros(9)), Duration::ZERO);
    assert_eq!(Instant::default().as_micros(), 0);

    let mut clock = Clock::new();
    clock.advance_to(Instant::from_micros(20));
    let mut scope: Scope<Clock> = Scope::new();
    clock.enter(&mut scope);
    assert_eq!(t.elapsed(&scope), Duration::from_micros(13));
}

#[test]
fn a_sleep_made_before_an_advance_keeps_its_deadline() {
    let mut clock = Clock::new();
    let mut s = clock.sleep(Duration::from_micros(10));
    clock.advance_to(Instant::from_micros(7));
    let (_, waker) = waker();
    assert!(!s.poll(&mut clock, waker.clone()));
    assert_eq!(clock.next_deadline(), Some(Instant::from_micros(10)));
    clock.advance_to(Instant::from_micros(10));
    assert!(s.poll(&mut clock, waker));
}
