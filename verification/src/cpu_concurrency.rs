//! Tuning a concurrency limit from a CPU-load signal.
//!
//! Overload brings the ceiling down by a fraction of itself, cycle after cycle; a calm
//! server that is up against the ceiling gets it back bit by bit. A load signal lags, so
//! after an overload the ceiling is not raised again for a number of cycles.
//!
//! The controller reads nothing: no clock, no load. Whoever drives it smooths the load
//! samples, holds them against the target, works out how much the configured fractions of
//! the ceiling come to, and reports one [`Cycle`] at a time.

use vstd::prelude::*;

use crate::debt::MAX_PERMITS;
use crate::limit::{law_retuning_serves_the_line_in_order, ConcurrencyLimit, Occupancy};

verus! {

/// How the controller reacts.
#[derive(Clone, Copy, Debug)]
pub struct Config {
    /// Cycles after an overload during which the ceiling is not raised again.
    pub refractory: u32,
    /// The ceiling never goes below this.
    pub min_limit: usize,
    /// The ceiling never goes above this.
    pub max_limit: usize,
}

impl Default for Config {
    fn default() -> (c: Self)
        ensures
            c == (Config { refractory: 3, min_limit: 1, max_limit: 65536 }),
    {
        Config { refractory: 3, min_limit: 1, max_limit: 65536 }
    }
}

/// A move of the ceiling: which way, and by how much.
#[derive(Clone, Copy, Debug)]
pub struct Move {
    pub down: bool,
    pub by: usize,
}

/// What one cycle brought to light.
#[derive(Clone, Copy, Debug)]
pub struct Cycle {
    /// The smoothed load is at the target or above it.
    pub overloaded: bool,
    /// The work in flight is close to the ceiling.
    pub saturated: bool,
    /// By how much an overload brings the ceiling down.
    pub shed: usize,
    /// By how much calm and saturation raise it.
    pub reclaim: usize,
}

/// The ceiling nearest to `limit` that the bounds allow.
pub open spec fn bounded(limit: int, config: Config) -> int {
    if limit < config.min_limit {
        config.min_limit as int
    } else if limit > config.max_limit {
        config.max_limit as int
    } else {
        limit
    }
}

/// How far a move goes: at least one, so that a small ceiling still moves.
pub open spec fn reach(m: Move) -> int {
    if m.by < 1 { 1 } else { m.by as int }
}

/// Where a move takes the ceiling.
pub open spec fn stepped(limit: int, m: Move, config: Config) -> int {
    bounded(
        if m.down {
            if limit >= reach(m) { limit - reach(m) } else { 0 }
        } else {
            if limit + reach(m) <= usize::MAX { limit + reach(m) } else { usize::MAX as int }
        },
        config,
    )
}

/// Move `limit` by `m` and hold it inside the configured bounds.
pub fn step(limit: usize, m: Move, config: Config) -> (moved: usize)
    requires
        config.min_limit <= config.max_limit,
    ensures
        moved == stepped(limit as int, m, config),
{
    let delta: usize = if m.by < 1 { 1 } else { m.by };
    let moved: usize = if m.down {
        limit.saturating_sub(delta)
    } else {
        limit.saturating_add(delta)
    };
    if moved < config.min_limit {
        config.min_limit
    } else if moved > config.max_limit {
        config.max_limit
    } else {
        moved
    }
}

/// How many slots under the ceiling are in use. A ceiling lowered below the work in flight
/// reads as fully used.
pub fn usage(limit: &ConcurrencyLimit) -> (n: usize)
    requires
        limit.wf(),
    ensures
        n == limit@.limit - limit@.free(),
        n == if limit@.held < limit@.limit { limit@.held } else { limit@.limit },
{
    proof {
        limit.lemma_wf_fits();
    }
    limit.get().saturating_sub(limit.available())
}

/// Steers a [`ConcurrencyLimit`] by what each cycle brought to light.
pub struct CpuConcurrencyController {
    pub config: Config,
    /// Cycles since the last overloaded one. The count stops at `config.refractory`.
    pub calm_cycles: u32,
}

impl CpuConcurrencyController {
    /// Where the ceiling is moved to, if it is moved at all.
    pub open spec fn decision(self, limit: int, cycle: Cycle) -> Option<int> {
        if cycle.overloaded {
            Some(stepped(limit, Move { down: true, by: cycle.shed }, self.config))
        } else if self.calm_cycles >= self.config.refractory && cycle.saturated {
            Some(stepped(limit, Move { down: false, by: cycle.reclaim }, self.config))
        } else {
            None
        }
    }

    /// The cycles without overload, once `cycle` is over, as far as the refractory period
    /// goes.
    pub open spec fn calm_after(self, cycle: Cycle) -> int {
        if cycle.overloaded {
            0
        } else if self.calm_cycles < self.config.refractory {
            self.calm_cycles + 1
        } else {
            self.config.refractory as int
        }
    }

    /// The occupancy after a cycle.
    pub open spec fn tuned(self, o: Occupancy, cycle: Cycle) -> Occupancy {
        match self.decision(o.limit, cycle) {
            Some(limit) => o.with_limit(limit),
            None => o,
        }
    }

    /// A controller that may raise the ceiling from the first cycle on.
    pub fn new(config: Config) -> (c: Self)
        ensures
            c.config == config,
            c.calm_cycles == config.refractory,
    {
        CpuConcurrencyController { config, calm_cycles: config.refractory }
    }

    /// Take one cycle in and move the ceiling accordingly.
    pub fn observe(&mut self, limit: &mut ConcurrencyLimit, cycle: Cycle)
        requires
            old(limit).wf(),
            old(self).decision(old(limit)@.limit, cycle) is Some ==> {
                &&& old(self).config.min_limit <= old(self).config.max_limit
                &&& old(self).tuned(old(limit)@, cycle).free() <= MAX_PERMITS
            },
        ensures
            final(limit).wf(),
            final(limit)@ == old(self).tuned(old(limit)@, cycle),
            final(self).config == old(self).config,
            final(self).calm_cycles == old(self).calm_after(cycle),
            !cycle.overloaded && !cycle.saturated ==> final(limit)@ == old(limit)@,
            !cycle.overloaded && old(self).calm_cycles < old(self).config.refractory
                ==> final(limit)@ == old(limit)@,
            final(limit)@.limit == match old(self).decision(old(limit)@.limit, cycle) {
                Some(decided) => decided,
                None => old(limit)@.limit,
            },
    {
        let ceiling: usize = limit.get();
        if cycle.overloaded {
            self.calm_cycles = 0;
            limit.set(step(ceiling, Move { down: true, by: cycle.shed }, self.config));
            return ;
        }
        if self.calm_cycles >= self.config.refractory && cycle.saturated {
            limit.set(step(ceiling, Move { down: false, by: cycle.reclaim }, self.config));
        }
        self.calm_cycles = if self.calm_cycles < self.config.refractory {
            self.calm_cycles + 1
        } else {
            self.config.refractory
        };
    }
}

// ---- laws ----

/// What a cycle does to a limit is move its ceiling, and nothing where none was decided on. A
/// calm cycle that is not saturated, or still inside the refractory period, leaves every slot,
/// every place in line and the ceiling as they were.
pub proof fn law_a_cycle_moves_the_ceiling_or_nothing(
    c: CpuConcurrencyController,
    o: Occupancy,
    cycle: Cycle,
)
    ensures
        !cycle.overloaded && !cycle.saturated ==> c.tuned(o, cycle) == o,
        !cycle.overloaded && c.calm_cycles < c.config.refractory ==> c.tuned(o, cycle) == o,
        cycle.overloaded ==> c.tuned(o, cycle).limit == c.decision(o.limit, cycle)->0,
        !cycle.overloaded && cycle.saturated && c.calm_cycles >= c.config.refractory ==> c.tuned(
            o,
            cycle,
        ).limit == c.decision(o.limit, cycle)->0,
        c.tuned(o, cycle).next == o.next,
        c.tuned(o, cycle).limit <= o.held ==> c.tuned(o, cycle).held == o.held && c.tuned(
            o,
            cycle,
        ).line == o.line,
        o.line.len() == 0 ==> c.tuned(o, cycle).held == o.held && c.tuned(o, cycle).line.len() == 0,
        forall|t: u64| o.granted.contains(t) ==> #[trigger] c.tuned(o, cycle).granted.contains(t),
{
    if let Some(new) = c.decision(o.limit, cycle) {
        law_retuning_serves_the_line_in_order(o, new);
    }
}

/// The ceiling is moved on an overload, and in a calm cycle exactly where the server is
/// saturated and the refractory period is over. An overload takes what is to be shed off the
/// ceiling, calm adds what is to be reclaimed, one at least either way, and the bounds hold:
/// where the outcome lies inside them it is exact, and otherwise it is the nearer bound.
pub proof fn law_the_ceiling_moves_by_what_is_shed_or_reclaimed(
    c: CpuConcurrencyController,
    limit: int,
    cycle: Cycle,
)
    requires
        c.config.min_limit <= c.config.max_limit,
        0 <= limit <= usize::MAX,
    ensures
        c.decision(limit, cycle) is Some <==> cycle.overloaded || (cycle.saturated && c.calm_cycles
            >= c.config.refractory),
        cycle.overloaded ==> {
            let by: int = if cycle.shed == 0 { 1 } else { cycle.shed as int };
            let new = c.decision(limit, cycle)->0;
            &&& limit - by < c.config.min_limit ==> new == c.config.min_limit
            &&& limit - by > c.config.max_limit ==> new == c.config.max_limit
            &&& c.config.min_limit <= limit - by <= c.config.max_limit ==> new == limit - by
        },
        !cycle.overloaded && cycle.saturated && c.calm_cycles >= c.config.refractory ==> {
            let by: int = if cycle.reclaim == 0 { 1 } else { cycle.reclaim as int };
            let new = c.decision(limit, cycle)->0;
            &&& limit + by < c.config.min_limit ==> new == c.config.min_limit
            &&& limit + by > c.config.max_limit ==> new == c.config.max_limit
            &&& c.config.min_limit <= limit + by <= c.config.max_limit ==> new == limit + by
        },
{
}

/// One step takes a ceiling as far as the move says, one at least, and no further than the
/// bounds: what `step` returns for any ceiling, move and bounds.
pub proof fn law_a_step_goes_as_far_as_the_move_says(limit: int, m: Move, config: Config)
    requires
        config.min_limit <= config.max_limit,
        0 <= limit <= usize::MAX,
    ensures
        ({
            let by: int = if m.by == 0 { 1 } else { m.by as int };
            let target = if m.down { limit - by } else { limit + by };
            &&& target < config.min_limit ==> stepped(limit, m, config) == config.min_limit
            &&& target > config.max_limit ==> stepped(limit, m, config) == config.max_limit
            &&& config.min_limit <= target <= config.max_limit ==> stepped(limit, m, config)
                == target
        }),
{
}

/// Calm is counted one cycle at a time up to the refractory period, where it stays, and an
/// overload starts the count over.
pub proof fn law_calm_is_counted_up_to_the_refractory_period(
    c: CpuConcurrencyController,
    cycle: Cycle,
)
    ensures
        cycle.overloaded ==> c.calm_after(cycle) == 0,
        !cycle.overloaded && c.calm_cycles < c.config.refractory ==> c.calm_after(cycle)
            == c.calm_cycles + 1,
        !cycle.overloaded && c.calm_cycles >= c.config.refractory ==> c.calm_after(cycle)
            == c.config.refractory,
{
}

/// A ceiling that moves stays inside the configured bounds.
pub proof fn law_a_moved_ceiling_stays_in_bounds(
    c: CpuConcurrencyController,
    limit: int,
    cycle: Cycle,
)
    requires
        c.config.min_limit <= c.config.max_limit,
    ensures
        c.decision(limit, cycle) matches Some(new) ==> c.config.min_limit <= new
            <= c.config.max_limit,
{
}

/// A move makes a difference: away from the bounds a ceiling goes down strictly on the way
/// down, and up strictly on the way up.
pub proof fn law_a_move_makes_a_difference(limit: int, m: Move, config: Config)
    requires
        config.min_limit <= config.max_limit,
        config.min_limit <= limit <= config.max_limit,
    ensures
        m.down && limit > config.min_limit ==> stepped(limit, m, config) < limit,
        !m.down && limit < config.max_limit ==> stepped(limit, m, config) > limit,
{
}

/// An overload brings the ceiling down, by one at least and by what is to be shed, unless
/// the floor is reached; it never raises a ceiling that is inside the bounds.
pub proof fn law_an_overload_brings_the_ceiling_down(
    c: CpuConcurrencyController,
    limit: int,
    cycle: Cycle,
)
    requires
        cycle.overloaded,
        c.config.min_limit <= limit <= c.config.max_limit,
    ensures
        c.decision(limit, cycle) is Some,
        limit > c.config.min_limit ==> c.decision(limit, cycle)->0 <= limit - 1,
        limit - cycle.shed >= c.config.min_limit && cycle.shed >= 1 ==> c.decision(limit, cycle)
            == Some(limit - cycle.shed),
        limit == c.config.min_limit ==> c.decision(limit, cycle) == Some(limit),
{
}

/// Calm at saturation, once the refractory period is over, raises the ceiling, by one at
/// least, unless the top is reached; it never lowers a ceiling that is inside the bounds.
pub proof fn law_calm_at_saturation_raises_the_ceiling(
    c: CpuConcurrencyController,
    limit: int,
    cycle: Cycle,
)
    requires
        !cycle.overloaded,
        cycle.saturated,
        c.calm_cycles >= c.config.refractory,
        c.config.min_limit <= limit <= c.config.max_limit,
    ensures
        c.decision(limit, cycle) is Some,
        limit < c.config.max_limit ==> c.decision(limit, cycle)->0 >= limit + 1,
        limit + cycle.reclaim <= c.config.max_limit && cycle.reclaim >= 1 ==> c.decision(
            limit,
            cycle,
        ) == Some(limit + cycle.reclaim),
        limit == c.config.max_limit ==> c.decision(limit, cycle) == Some(limit),
{
}

/// A server that is neither overloaded nor up against the ceiling is left alone.
pub proof fn law_an_idle_server_is_left_alone(
    c: CpuConcurrencyController,
    limit: int,
    cycle: Cycle,
)
    requires
        !cycle.overloaded,
        !cycle.saturated,
    ensures
        c.decision(limit, cycle) is None,
{
}

/// The ceiling after a run of moves.
pub open spec fn walked(limit: int, moves: Seq<Move>, config: Config) -> int
    decreases moves.len(),
{
    if moves.len() == 0 {
        limit
    } else {
        stepped(walked(limit, moves.drop_last(), config), moves.last(), config)
    }
}

/// Sustained overload walks the ceiling down to the floor, and it stops there.
pub proof fn law_the_decrease_stops_at_the_floor(limit: int, moves: Seq<Move>, config: Config)
    requires
        config.min_limit <= limit <= config.max_limit,
        forall|i: int| 0 <= i < moves.len() ==> (#[trigger] moves[i]).down,
    ensures
        config.min_limit <= walked(limit, moves, config) <= limit,
        walked(limit, moves, config) <= limit - moves.len() || walked(limit, moves, config)
            == config.min_limit,
        moves.len() >= limit - config.min_limit ==> walked(limit, moves, config)
            == config.min_limit,
    decreases moves.len(),
{
    if moves.len() > 0 {
        let front = moves.drop_last();
        assert forall|i: int| 0 <= i < front.len() implies (#[trigger] front[i]).down by {
            assert(front[i] == moves[i]);
        }
        law_the_decrease_stops_at_the_floor(limit, front, config);
        assert(moves[moves.len() - 1].down);
    }
}

/// Sustained calm at saturation walks the ceiling up to the top, and it stops there.
pub proof fn law_the_increase_stops_at_the_top(limit: int, moves: Seq<Move>, config: Config)
    requires
        config.min_limit <= limit <= config.max_limit,
        forall|i: int| 0 <= i < moves.len() ==> !(#[trigger] moves[i]).down,
    ensures
        limit <= walked(limit, moves, config) <= config.max_limit,
        walked(limit, moves, config) >= limit + moves.len() || walked(limit, moves, config)
            == config.max_limit,
        moves.len() >= config.max_limit - limit ==> walked(limit, moves, config)
            == config.max_limit,
    decreases moves.len(),
{
    if moves.len() > 0 {
        let front = moves.drop_last();
        assert forall|i: int| 0 <= i < front.len() implies !(#[trigger] front[i]).down by {
            assert(front[i] == moves[i]);
        }
        law_the_increase_stops_at_the_top(limit, front, config);
        assert(!moves[moves.len() - 1].down);
    }
}

/// The controller after a run of cycles.
pub open spec fn seen(c: CpuConcurrencyController, cycles: Seq<Cycle>) -> CpuConcurrencyController
    decreases cycles.len(),
{
    if cycles.len() == 0 {
        c
    } else {
        let before = seen(c, cycles.drop_last());
        CpuConcurrencyController {
            config: before.config,
            calm_cycles: before.calm_after(cycles.last()) as u32,
        }
    }
}

/// The refractory period outlasts the lagging signal: right after an overload the ceiling
/// holds for exactly as many calm cycles as configured, and is raised by the next one that
/// finds the server saturated.
pub proof fn law_the_refractory_period_holds_the_ceiling(
    c: CpuConcurrencyController,
    overload: Cycle,
    calm: Seq<Cycle>,
    limit: int,
    next: Cycle,
)
    requires
        overload.overloaded,
        forall|i: int| 0 <= i < calm.len() ==> !(#[trigger] calm[i]).overloaded,
        calm.len() <= c.config.refractory,
        !next.overloaded,
    ensures
        seen(c, seq![overload] + calm).config == c.config,
        seen(c, seq![overload] + calm).calm_cycles == calm.len(),
        calm.len() < c.config.refractory ==> seen(c, seq![overload] + calm).decision(limit, next)
            is None,
        calm.len() == c.config.refractory && next.saturated ==> seen(
            c,
            seq![overload] + calm,
        ).decision(limit, next) == Some(
            stepped(limit, Move { down: false, by: next.reclaim }, c.config),
        ),
    decreases calm.len(),
{
    let cycles = seq![overload] + calm;
    if calm.len() == 0 {
        assert(cycles.drop_last() =~= Seq::<Cycle>::empty());
        assert(cycles.last() == overload);
        assert(seen(c, cycles.drop_last()) == c);
    } else {
        let front = calm.drop_last();
        assert forall|i: int| 0 <= i < front.len() implies !(#[trigger] front[i]).overloaded by {
            assert(front[i] == calm[i]);
        }
        law_the_refractory_period_holds_the_ceiling(c, overload, front, limit, next);
        assert(cycles.drop_last() =~= seq![overload] + front);
        assert(cycles.last() == calm[calm.len() - 1]);
    }
}

} // verus!
