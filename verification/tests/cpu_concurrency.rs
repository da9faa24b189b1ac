//! Steering a concurrency limit by load.

use taipei::cpu_concurrency::{step, usage, Config, CpuConcurrencyController, Cycle, Move};
use taipei::limit::{ConcurrencyLimit, Turn};

/// The knobs that the caller turns samples into cycles with.
#[derive(Clone, Copy)]
struct Knobs {
    cpu_target: f64,
    decrease: f64,
    increase: f64,
    increase_distance: f64,
    smoothing: f64,
}

const KNOBS: Knobs = Knobs {
    cpu_target: 0.9,
    decrease: 0.05,
    increase: 0.02,
    increase_distance: 0.2,
    smoothing: 0.3,
};

/// A caller of the controller: it smooths the samples and works the fractions out.
struct Driver {
    controller: CpuConcurrencyController,
    limit: ConcurrencyLimit,
    load: f64,
}

fn amount(limit: usize, fraction: f64) -> usize {
    (limit as f64 * fraction.abs()) as usize
}

impl Driver {
    fn new(limit: ConcurrencyLimit, config: Config) -> Driver {
        Driver { controller: CpuConcurrencyController::new(config), limit, load: 0.0 }
    }

    fn observe(&mut self, load: f64) {
        let alpha = KNOBS.smoothing.clamp(0.0, 1.0);
        self.load += alpha * (load.clamp(0.0, 1.0) - self.load);
        let limit = self.limit.get();
        let cycle = Cycle {
            overloaded: self.load >= KNOBS.cpu_target,
            saturated: usage(&self.limit) as f64
                >= (1.0 - KNOBS.increase_distance) * limit as f64,
            shed: amount(limit, KNOBS.decrease),
            reclaim: amount(limit, KNOBS.increase),
        };
        self.controller.observe(&mut self.limit, cycle);
    }
}

/// A limit with `held` of its slots taken by requests that never finish.
fn occupied(limit: usize, held: usize) -> ConcurrencyLimit {
    let mut limit = ConcurrencyLimit::new(limit);
    for _ in 0..held {
        assert!(matches!(limit.ask(None), Turn::Taken(_)));
    }
    limit
}

#[test]
fn a_single_spike_does_not_shed_the_ceiling() {
    let mut cc = Driver::new(occupied(100, 100), Config::default());
    cc.observe(1.0);
    assert!(cc.load < KNOBS.cpu_target, "one hot sample is smoothed, not obeyed");
    assert!(cc.limit.get() >= 100, "so nothing is shed on the strength of it");
}

#[test]
fn sustained_overload_walks_the_ceiling_down() {
    let mut cc = Driver::new(occupied(100, 100), Config::default());
    for _ in 0..20 {
        cc.observe(1.0);
    }
    let after_20 = cc.limit.get();
    assert!(after_20 < 100, "sustained load sheds the ceiling: {after_20}");
    for _ in 0..20 {
        cc.observe(1.0);
    }
    assert!(cc.limit.get() < after_20, "and keeps shedding while it stays hot");
}

#[test]
fn a_calm_saturated_server_reclaims_the_ceiling() {
    let config = Config { refractory: 0, ..Config::default() };
    let mut cc = Driver::new(occupied(100, 100), config);
    for _ in 0..10 {
        cc.observe(0.1);
    }
    assert!(cc.limit.get() > 100, "calm and saturated reclaims: {}", cc.limit.get());
}

#[test]
fn an_idle_server_is_left_alone() {
    let mut cc = Driver::new(occupied(100, 0), Config::default());
    for _ in 0..50 {
        cc.observe(0.1);
    }
    assert_eq!(cc.limit.get(), 100, "nothing waits on the ceiling, so it does not move");
}

#[test]
fn the_refractory_period_outlasts_the_lagging_signal() {
    let config = Config { refractory: 5, ..Config::default() };
    let mut cc = Driver::new(occupied(100, 100), config);
    for _ in 0..20 {
        cc.observe(1.0);
    }
    let shed = cc.limit.get();
    // The load reads calm the moment the spike passes, but the average that produced it is
    // stale, so the ceiling holds until the refractory expires.
    for _ in 0..config.refractory {
        cc.observe(0.0);
        assert_eq!(cc.limit.get(), shed, "still cooling off after an overload");
    }
    cc.observe(0.0);
    assert!(cc.limit.get() > shed, "then it reclaims");
}

#[test]
fn the_decrease_stops_at_the_floor() {
    let config = Config { min_limit: 10, ..Config::default() };
    let mut cc = Driver::new(occupied(12, 12), config);
    for _ in 0..500 {
        cc.observe(1.0);
    }
    assert_eq!(cc.limit.get(), 10);
}

#[test]
fn the_increase_stops_at_the_ceiling() {
    let config = Config { max_limit: 14, refractory: 0, ..Config::default() };
    let mut cc = Driver::new(occupied(12, 12), config);
    for _ in 0..500 {
        cc.observe(0.0);
    }
    assert_eq!(cc.limit.get(), 14);
}

#[test]
fn the_increase_stops_when_the_ceiling_is_no_longer_the_constraint() {
    let config = Config { refractory: 0, ..Config::default() };
    let mut cc = Driver::new(occupied(12, 12), config);
    for _ in 0..500 {
        cc.observe(0.0);
    }
    let settled = cc.limit.get();
    let saturates = |l: usize| 12.0 >= (1.0 - KNOBS.increase_distance) * l as f64;
    assert!(
        saturates(settled - 1) && !saturates(settled),
        "settles one step past the widest ceiling 12 in-flight still saturates: {settled}"
    );
}

#[test]
fn a_step_moves_by_one_at_least_and_stays_in_bounds() {
    let config = Config { refractory: 0, min_limit: 2, max_limit: 50 };
    let down = |by| Move { down: true, by };
    let up = |by| Move { down: false, by };
    assert_eq!(step(10, down(0), config), 9);
    assert_eq!(step(10, up(0), config), 11);
    assert_eq!(step(10, down(4), config), 6);
    assert_eq!(step(10, up(4), config), 14);
    assert_eq!(step(10, down(100), config), 2);
    assert_eq!(step(10, up(usize::MAX), config), 50);
    assert_eq!(step(0, up(1), config), 2);
}

#[test]
fn an_overload_brings_the_ceiling_down_by_one_at_least() {
    let mut limit = ConcurrencyLimit::new(100);
    let mut cc = CpuConcurrencyController::new(Config::default());
    let hot = Cycle { overloaded: true, saturated: true, shed: 0, reclaim: 2 };
    cc.observe(&mut limit, hot);
    assert_eq!(limit.get(), 99, "nothing to shed is still one");
    cc.observe(&mut limit, Cycle { shed: 5, ..hot });
    assert_eq!(limit.get(), 94);
    assert_eq!(cc.calm_cycles, 0);
}

#[test]
fn a_ceiling_below_the_work_in_flight_reads_as_fully_used() {
    let mut limit = occupied(10, 6);
    assert_eq!(usage(&limit), 6);
    limit.set(4);
    assert_eq!(usage(&limit), 4);
}

#[test]
fn defaults_are_the_documented_ones() {
    let c = Config::default();
    assert_eq!((c.refractory, c.min_limit, c.max_limit), (3, 1, 1 << 16));
}

#[test]
fn calm_is_counted_as_far_as_the_refractory_period_goes() {
    let config = Config::default();
    let mut limit = ConcurrencyLimit::new(10);
    let mut controller = CpuConcurrencyController::new(config);
    assert_eq!(controller.calm_cycles, 3);
    let calm = Cycle { overloaded: false, saturated: false, shed: 1, reclaim: 1 };
    controller.observe(&mut limit, calm);
    assert_eq!(controller.calm_cycles, 3);
    controller.observe(&mut limit, Cycle { overloaded: true, ..calm });
    for seen in [1, 2, 3, 3] {
        controller.observe(&mut limit, calm);
        assert_eq!(controller.calm_cycles, seen);
    }
}
