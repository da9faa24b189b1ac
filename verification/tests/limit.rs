//! Retuning a concurrency limit under load.

use taipei::limit::{ConcurrencyLimit, DynamicConcurrencyLimitLayer, Slot, State, Turn};
use taipei::ready::Readiness;

#[derive(Clone)]
struct HoldForever;

/// A slot, if there is one free. Nobody is left waiting.
fn take(limit: &mut ConcurrencyLimit) -> Option<Slot> {
    match limit.ask(None) {
        Turn::Taken(slot) => Some(slot),
        Turn::Wait(place) => {
            limit.leave(place);
            None
        }
    }
}

fn is_ready(r: Readiness<()>) -> bool {
    matches!(r, Readiness::Ready)
}

#[test]
fn set_limit_grows_and_shrinks_free_capacity() {
    let mut s = State::new(3);
    assert_eq!(s.sem.available(), 3);
    s.set_limit(5);
    assert_eq!(s.sem.available(), 5);
    s.set_limit(2);
    assert_eq!(s.sem.available(), 2);
}

#[test]
fn lowering_below_in_flight_books_debt_then_repays_on_completion() {
    let mut s = State::new(2);
    // Two in-flight requests hold both slots.
    assert!(s.sem.ask(None).is_none());
    assert!(s.sem.ask(None).is_none());
    assert_eq!(s.sem.available(), 0);

    // Drop the ceiling to 0 while 2 are in flight: all of it becomes debt.
    s.set_limit(0);
    assert_eq!(s.sem.debt(), 2);
    assert_eq!(s.sem.available(), 0);

    // Each completion cancels debt rather than freeing a slot…
    s.sem.release();
    assert_eq!(s.sem.debt(), 1);
    assert_eq!(s.sem.available(), 0);
    s.sem.release();
    assert_eq!(s.sem.debt(), 0);
    assert_eq!(s.sem.available(), 0);

    // …so capacity has converged on the new limit; raising it frees slots.
    s.set_limit(1);
    assert_eq!(s.sem.available(), 1);
}

#[test]
fn enforces_limit_and_admits_when_raised() {
    let mut layer = DynamicConcurrencyLimitLayer::new(1);
    let mut first = layer.layer(HoldForever);
    // First request takes the only slot and never completes.
    assert!(is_ready(first.poll_ready(layer.handle(), Readiness::Ready)));
    let _held = first.call();

    // A second service sharing the limit cannot become ready.
    let mut second = layer.layer(HoldForever);
    assert!(
        !is_ready(second.poll_ready(layer.handle(), Readiness::Ready)),
        "limit of 1 should keep the second request waiting"
    );

    // Raising the limit frees a slot, so it becomes ready.
    layer.handle().set(2);
    assert!(
        is_ready(second.poll_ready(layer.handle(), Readiness::Ready)),
        "raising the limit should let the waiter in"
    );
}

#[test]
fn an_unspent_reservation_is_returned_against_the_debt() {
    let limit = ConcurrencyLimit::new(2);
    let mut layer = DynamicConcurrencyLimitLayer::from_handle(limit);

    // Reserve both slots without spending either.
    let mut a = layer.layer(HoldForever);
    let mut b = layer.layer(HoldForever);
    assert!(is_ready(a.poll_ready(layer.handle(), Readiness::Ready)));
    assert!(is_ready(b.poll_ready(layer.handle(), Readiness::Ready)));
    assert_eq!(layer.handle().available(), 0, "both slots are reserved");

    // Lower the ceiling to nothing: neither slot is back yet, so both are owed.
    layer.handle().set(0);
    assert_eq!(layer.handle().get(), 0);
    assert_eq!(
        layer.handle().debt(),
        2,
        "two reserved slots are owed to the lowered ceiling"
    );

    // Dropping the services returns what they reserved, as debt and not as capacity.
    a.retire(layer.handle());
    b.retire(layer.handle());
    assert_eq!(layer.handle().debt(), 0, "the returned slots paid the debt off");
    assert_eq!(layer.handle().available(), 0, "a ceiling of zero lets nothing in");
}

#[test]
fn the_inner_service_is_asked_only_behind_a_slot() {
    let mut layer = DynamicConcurrencyLimitLayer::new(1);
    let mut a = layer.layer(HoldForever);
    let mut b = a.clone();
    assert!(a.reserve(layer.handle()));
    assert!(a.reserve(layer.handle()), "a reserved slot is kept");
    assert!(!b.reserve(layer.handle()));
    assert!(matches!(
        a.poll_ready(layer.handle(), Readiness::Failed("broken")),
        Readiness::Failed("broken")
    ));
    assert!(matches!(
        b.poll_ready(layer.handle(), Readiness::Failed("broken")),
        Readiness::Pending
    ));
    let slot = a.call();
    layer.handle().give_back(slot);
    assert!(b.reserve(layer.handle()));
}

#[test]
fn capacity_converges_on_the_ceiling() {
    let mut limit = ConcurrencyLimit::new(4);
    let slots: Vec<_> = (0..4).map(|_| take(&mut limit).unwrap()).collect();
    assert!(take(&mut limit).is_none());
    limit.set(3);
    limit.set(1);
    assert_eq!((limit.available(), limit.debt()), (0, 3));
    limit.set(2);
    assert_eq!((limit.available(), limit.debt()), (0, 2));
    for slot in slots {
        limit.give_back(slot);
    }
    assert_eq!((limit.available(), limit.debt()), (2, 0));
}

#[test]
fn slots_in_use_are_those_taken_less_those_given_back() {
    let mut limit = ConcurrencyLimit::new(2);
    let mut slots = Vec::new();
    for ceiling in [2usize, 5, 1, 0, 3] {
        limit.set(ceiling);
        while let Some(slot) = take(&mut limit) {
            slots.push(slot);
        }
        let held = limit.get() + limit.debt() - limit.available();
        assert_eq!(held, slots.len());
        if let Some(slot) = slots.pop() {
            limit.give_back(slot);
        }
    }
}

#[test]
fn a_freed_slot_goes_to_the_first_in_line() {
    let mut layer = DynamicConcurrencyLimitLayer::new(1);
    let mut first = layer.layer(HoldForever);
    let mut second = layer.layer(HoldForever);
    let mut third = layer.layer(HoldForever);
    let mut late = layer.layer(HoldForever);
    assert!(first.reserve(layer.handle()));
    assert!(!second.reserve(layer.handle()));
    assert!(!third.reserve(layer.handle()));
    assert!(!third.reserve(layer.handle()), "asking again does not get it ahead");

    first.retire(layer.handle());
    assert_eq!(layer.handle().available(), 0, "the slot is set aside for the second");
    assert!(!late.reserve(layer.handle()), "so whoever comes now waits");
    assert!(!third.reserve(layer.handle()));
    assert!(second.reserve(layer.handle()));

    let slot = second.call();
    layer.handle().give_back(slot);
    assert!(!late.reserve(layer.handle()));
    assert!(third.reserve(layer.handle()));
}

#[test]
fn a_place_given_up_is_passed_over() {
    let mut layer = DynamicConcurrencyLimitLayer::new(1);
    let mut first = layer.layer(HoldForever);
    let mut second = layer.layer(HoldForever);
    let mut third = layer.layer(HoldForever);
    assert!(first.reserve(layer.handle()));
    assert!(!second.reserve(layer.handle()));
    assert!(!third.reserve(layer.handle()));
    second.retire(layer.handle());
    first.retire(layer.handle());
    assert_eq!(layer.handle().available(), 0, "the slot is set aside for the third");

    third.retire(layer.handle());
    assert_eq!(layer.handle().available(), 1, "and free once the third leaves without it");
}

#[test]
fn raising_the_ceiling_serves_debt_then_the_line_then_the_rest() {
    let mut limit = ConcurrencyLimit::new(1);
    let _held = take(&mut limit).unwrap();
    let places: Vec<u64> = (0..2)
        .map(|_| match limit.ask(None) {
            Turn::Wait(place) => place,
            Turn::Taken(_) => panic!("the only slot is taken"),
        })
        .collect();
    limit.set(0);
    assert_eq!((limit.available(), limit.debt()), (0, 1));
    limit.set(1);
    assert_eq!((limit.available(), limit.debt()), (0, 0));
    assert!(!limit.is_granted(places[0]));
    limit.set(2);
    assert!(limit.is_granted(places[0]) && !limit.is_granted(places[1]));
    limit.set(5);
    assert!(limit.is_granted(places[1]));
    assert_eq!(limit.available(), 2);
    assert!(matches!(limit.ask(Some(places[1])), Turn::Taken(_)));
    assert!(!limit.is_granted(places[1]));
}

#[test]
fn nobody_in_line_is_lost() {
    let mut limit = ConcurrencyLimit::new(2);
    let mut slots = Vec::new();
    let mut places = Vec::new();
    let mut came = 0;
    let mut went = 0;
    for k in 0..60usize {
        match k % 6 {
            0 | 1 | 2 => {
                came += 1;
                match limit.ask(None) {
                    Turn::Taken(slot) => slots.push(slot),
                    Turn::Wait(place) => places.push(place),
                }
            }
            3 => {
                if let Some(slot) = slots.pop() {
                    limit.give_back(slot);
                    went += 1;
                }
            }
            4 => {
                let (taken, waiting): (Vec<u64>, Vec<u64>) =
                    places.iter().copied().partition(|place| limit.is_granted(*place));
                for place in taken {
                    match limit.ask(Some(place)) {
                        Turn::Taken(slot) => slots.push(slot),
                        Turn::Wait(_) => panic!("a slot was set aside"),
                    }
                }
                places = waiting;
            }
            _ => limit.set(1 + k % 4),
        }
        let held = limit.get() + limit.debt() - limit.available();
        let waiting = places.iter().filter(|place| !limit.is_granted(**place)).count();
        assert_eq!(held + waiting, came - went);
    }
}

#[test]
fn only_the_last_ceiling_counts() {
    let mut limit = ConcurrencyLimit::new(2);
    let _held = take(&mut limit).unwrap();
    limit.set(0);
    limit.set(9);
    limit.set(2);
    assert_eq!((limit.get(), limit.available(), limit.debt()), (2, 1, 0));

    // Unless one on the way serves somebody: that slot is not taken back.
    limit.set(1);
    let place = match limit.ask(None) {
        Turn::Wait(place) => place,
        Turn::Taken(_) => panic!("the only slot is taken"),
    };
    limit.set(2);
    limit.set(1);
    assert!(limit.is_granted(place));
    assert_eq!((limit.available(), limit.debt()), (0, 1));
}
