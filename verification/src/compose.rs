//! The book's progression as data: a [`Stage`] names a point in it, and
//! [`Stage::manifest`] tells which protection layers that point composes, so that what is
//! drawn cannot drift from what is composed. [`src_for`] picks the listing to show beside
//! it.

use core::time::Duration;
use vstd::prelude::*;

verus! {

/// The ceiling of [`Stage::Reject`] and [`Stage::Wait`]: one slot per core.
pub const REJECT_LIMIT: usize = 8;

/// The ceiling behind the queue of [`Stage::Queue`], tuned by hand to what the cores
/// sustain while requests also wait on IO.
pub const QUEUE_LIMIT: usize = 24;

/// A point in the book's progression.
#[derive(Clone, Copy, PartialEq, Eq, Debug, Structural)]
pub enum Stage {
    /// The bare service.
    App,
    /// CPU backpressure only.
    Backpressure,
    /// A concurrency limit and immediate rejection, no queue.
    Reject,
    /// A concurrency limit and nothing else: callers wait for a slot as long as it takes.
    Wait,
    /// A concurrency limit behind a queue that sheds on its deadline.
    Queue,
}

impl Default for Stage {
    fn default() -> (s: Self)
        ensures
            s == Stage::Queue,
    {
        Stage::Queue
    }
}

/// Which protection layers a [`Stage`] composes.
#[derive(Clone, Copy, Debug, PartialEq, Eq)]
pub struct Layers {
    /// CPU backpressure withholds readiness.
    pub backpressure: bool,
    /// The ceiling of a concurrency limit.
    pub limit: Option<usize>,
    /// A rejection layer sheds immediately.
    pub reject: bool,
    /// Requests are parked awaiting their turn, by a queue or by a limit that callers wait
    /// on.
    pub queue: bool,
    /// The queue's shed deadline; without one the wait is unbounded.
    pub queue_timeout: Option<Duration>,
}

impl Layers {
    /// No layer at all.
    pub open spec fn none() -> Layers {
        Layers {
            backpressure: false,
            limit: None,
            reject: false,
            queue: false,
            queue_timeout: None,
        }
    }
}

impl Default for Layers {
    fn default() -> (l: Self)
        ensures
            l == Layers::none(),
    {
        Layers {
            backpressure: false,
            limit: None,
            reject: false,
            queue: false,
            queue_timeout: None,
        }
    }
}

impl Stage {
    /// The name of a stage.
    pub open spec fn name(self) -> Seq<char> {
        match self {
            Stage::App => "app"@,
            Stage::Backpressure => "backpressure"@,
            Stage::Reject => "reject"@,
            Stage::Wait => "wait"@,
            Stage::Queue => "queue"@,
        }
    }

    /// What a stage composes, when its queue sheds after `queue_timeout`.
    pub open spec fn layers(self, queue_timeout: Duration) -> Layers {
        match self {
            Stage::App => Layers::none(),
            Stage::Backpressure => Layers { backpressure: true, ..Layers::none() },
            Stage::Reject => Layers { limit: Some(REJECT_LIMIT), reject: true, ..Layers::none() },
            Stage::Wait => Layers { limit: Some(REJECT_LIMIT), queue: true, ..Layers::none() },
            Stage::Queue => Layers {
                limit: Some(QUEUE_LIMIT),
                queue: true,
                queue_timeout: Some(queue_timeout),
                ..Layers::none()
            },
        }
    }

    /// The name of this stage, in lower case, as pages spell it.
    pub fn as_str(&self) -> (s: &'static str)
        ensures
            s@ == self.name(),
    {
        match self {
            Stage::App => "app",
            Stage::Backpressure => "backpressure",
            Stage::Reject => "reject",
            Stage::Wait => "wait",
            Stage::Queue => "queue",
        }
    }

    /// The name of this stage as an owned string.
    pub fn to_string(&self) -> (s: String)
        ensures
            s@ == self.name(),
    {
        self.as_str().to_owned()
    }

    /// The stage with this name, if there is one.
    pub fn parse(s: &str) -> (stage: Result<Stage, ()>)
        ensures
            forall|named: Stage|
                stage == Ok::<Stage, ()>(named) <==> #[trigger] named.name() == s@,
            stage is Err <==> forall|named: Stage| #[trigger] named.name() != s@,
    {
        proof {
            assert forall|a: Stage, b: Stage|
                #[trigger] a.name() == #[trigger] b.name() implies a == b by {
                law_names_tell_stages_apart(a, b);
            }
        }
        let name = s.to_owned();
        if name == "app".to_owned() {
            assert(Stage::App.name() == s@);
            Ok(Stage::App)
        } else if name == "backpressure".to_owned() {
            assert(Stage::Backpressure.name() == s@);
            Ok(Stage::Backpressure)
        } else if name == "reject".to_owned() {
            assert(Stage::Reject.name() == s@);
            Ok(Stage::Reject)
        } else if name == "wait".to_owned() {
            assert(Stage::Wait.name() == s@);
            Ok(Stage::Wait)
        } else if name == "queue".to_owned() {
            assert(Stage::Queue.name() == s@);
            Ok(Stage::Queue)
        } else {
            Err(())
        }
    }

    /// The layers this stage composes.
    pub fn manifest(&self, queue_timeout: Duration) -> (l: Layers)
        ensures
            l == self.layers(queue_timeout),
    {
        match self {
            Stage::App => Layers::default(),
            Stage::Backpressure => Layers { backpressure: true, ..Layers::default() },
            Stage::Reject => Layers {
                limit: Some(REJECT_LIMIT),
                reject: true,
                ..Layers::default()
            },
            Stage::Wait => Layers { limit: Some(REJECT_LIMIT), queue: true, ..Layers::default() },
            Stage::Queue => Layers {
                limit: Some(QUEUE_LIMIT),
                queue: true,
                queue_timeout: Some(queue_timeout),
                ..Layers::default()
            },
        }
    }
}

impl core::str::FromStr for Stage {
    type Err = ();

    fn from_str(s: &str) -> (stage: Result<Self, ()>)
        ensures
            forall|named: Stage|
                stage == Ok::<Stage, ()>(named) <==> #[trigger] named.name() == s@,
            stage is Err <==> forall|named: Stage| #[trigger] named.name() != s@,
    {
        Stage::parse(s)
    }
}

// ---- listings ----

/// What gates a queue, where something other than a limit tuned by hand does.
#[derive(Clone, Copy, PartialEq, Eq, Debug, Structural)]
pub enum Gate {
    /// The idle cores that the runtime reports.
    RuntimeCpu,
    /// A limit tuned from the load that the operating system reports.
    OsCpu,
}

/// The source text of each composition.
pub struct Sources<'a> {
    pub backpressure: &'a str,
    pub reject: &'a str,
    pub wait: &'a str,
    pub queue_naive: &'a str,
    pub queue: &'a str,
    pub queue_os_cpu: &'a str,
}

/// The listing of the composition that runs at `stage` behind `gate`.
pub fn src_for<'a>(stage: Stage, gate: Option<Gate>, sources: &Sources<'a>) -> (src: &'a str)
    ensures
        src@ == match (stage, gate) {
            (Stage::App, _) => "// The bare service — no protection.\napp"@,
            (Stage::Backpressure, _) => sources.backpressure@,
            (Stage::Reject, _) => sources.reject@,
            (Stage::Wait, _) => sources.wait@,
            (Stage::Queue, Some(Gate::RuntimeCpu)) => sources.queue@,
            (Stage::Queue, Some(Gate::OsCpu)) => sources.queue_os_cpu@,
            (Stage::Queue, None) => sources.queue_naive@,
        },
{
    match (stage, gate) {
        (Stage::App, _) => "// The bare service — no protection.\napp",
        (Stage::Backpressure, _) => sources.backpressure,
        (Stage::Reject, _) => sources.reject,
        (Stage::Wait, _) => sources.wait,
        (Stage::Queue, Some(Gate::RuntimeCpu)) => sources.queue,
        (Stage::Queue, Some(Gate::OsCpu)) => sources.queue_os_cpu,
        (Stage::Queue, None) => sources.queue_naive,
    }
}

// ---- laws ----

/// A stage is known by its name: no two stages share one, so that whatever [`Stage::parse`]
/// makes of a stage's own name is that stage.
pub proof fn law_names_tell_stages_apart(a: Stage, b: Stage)
    ensures
        a.name() == b.name() <==> a == b,
{
    reveal_strlit("app");
    reveal_strlit("backpressure");
    reveal_strlit("reject");
    reveal_strlit("wait");
    reveal_strlit("queue");
    assert("app"@.len() == 3);
    assert("backpressure"@.len() == 12);
    assert("reject"@.len() == 6);
    assert("wait"@.len() == 4);
    assert("queue"@.len() == 5);
}

/// Backpressure belongs to exactly one stage.
pub proof fn law_backpressure_belongs_to_one_stage(stage: Stage, t: Duration)
    ensures
        stage.layers(t).backpressure <==> stage == Stage::Backpressure,
{
}

/// Waiting and rejecting share a ceiling and differ only in what reaching it does.
pub proof fn law_wait_and_reject_share_a_ceiling(t: Duration)
    ensures
        Stage::Wait.layers(t).limit == Stage::Reject.layers(t).limit,
        Stage::Wait.layers(t) == (Layers {
            queue: true,
            reject: false,
            ..Stage::Reject.layers(t)
        }),
        Stage::Reject.layers(t).reject && !Stage::Reject.layers(t).queue,
{
}

/// A deadline is the caller's, and is only where there is a queue to wait in.
pub proof fn law_the_deadline_is_the_callers(stage: Stage, t: Duration)
    ensures
        stage.layers(t).queue_timeout matches Some(d) ==> d == t && stage.layers(t).queue,
        stage.layers(t).queue_timeout is Some <==> stage == Stage::Queue,
{
}

/// Each stage draws a picture of its own.
pub proof fn law_manifests_tell_stages_apart(a: Stage, b: Stage, t: Duration)
    ensures
        a.layers(t) == b.layers(t) <==> a == b,
{
}

/// What each stage is made of: nothing for the bare service, backpressure alone, one slot per
/// core with immediate rejection or with waiting, and the hand-tuned limit behind a queue with
/// the caller's deadline.
pub proof fn law_what_each_stage_is_made_of(t: Duration)
    ensures
        Stage::App.layers(t) == (Layers {
            backpressure: false,
            limit: None,
            reject: false,
            queue: false,
            queue_timeout: None,
        }),
        Stage::Backpressure.layers(t) == (Layers {
            backpressure: true,
            limit: None,
            reject: false,
            queue: false,
            queue_timeout: None,
        }),
        Stage::Reject.layers(t) == (Layers {
            backpressure: false,
            limit: Some(8),
            reject: true,
            queue: false,
            queue_timeout: None,
        }),
        Stage::Wait.layers(t) == (Layers {
            backpressure: false,
            limit: Some(8),
            reject: false,
            queue: true,
            queue_timeout: None,
        }),
        Stage::Queue.layers(t) == (Layers {
            backpressure: false,
            limit: Some(24),
            reject: false,
            queue: true,
            queue_timeout: Some(t),
        }),
        Layers::none() == Stage::App.layers(t),
{
}

/// A stage goes by its name in lower case.
pub proof fn law_stages_go_by_their_names()
    ensures
        Stage::App.name() == "app"@,
        Stage::Backpressure.name() == "backpressure"@,
        Stage::Reject.name() == "reject"@,
        Stage::Wait.name() == "wait"@,
        Stage::Queue.name() == "queue"@,
{
}

} // verus!
