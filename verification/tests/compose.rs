//! Stages, their names and their pictures.

use std::str::FromStr;
use std::time::Duration;
use taipei::compose::{src_for, Gate, Layers, Sources, Stage, QUEUE_LIMIT, REJECT_LIMIT};

const T: Duration = Duration::from_millis(100);

fn stages() -> [Stage; 5] {
    let all = [Stage::App, Stage::Backpressure, Stage::Reject, Stage::Wait, Stage::Queue];
    // A new variant makes this match non-exhaustive, so the list cannot fall behind the
    // enum and quietly shrink what the tests below range over.
    all.map(|stage| match stage {
        Stage::App | Stage::Backpressure | Stage::Reject | Stage::Wait | Stage::Queue => stage,
    })
}

#[test]
fn every_stage_round_trips_through_its_string() {
    for stage in stages() {
        assert_eq!(Stage::from_str(stage.as_str()), Ok(stage));
        assert_eq!(stage.to_string(), stage.as_str());
    }
    assert_eq!(Stage::from_str("Queue"), Err(()));
}

#[test]
fn backpressure_belongs_to_exactly_one_stage() {
    let carried: Vec<Stage> =
        stages().into_iter().filter(|s| s.manifest(T).backpressure).collect();
    assert_eq!(carried, [Stage::Backpressure]);
}

#[test]
fn wait_and_reject_differ_only_in_what_reaching_the_ceiling_does() {
    let (wait, reject) = (Stage::Wait.manifest(T), Stage::Reject.manifest(T));
    assert_eq!(wait.limit, reject.limit);
    assert!(reject.reject && !reject.queue, "reaching it sheds");
    assert!(wait.queue && !wait.reject, "reaching it waits");
}

#[test]
fn the_deadline_is_the_callers_and_belongs_to_a_queue() {
    for stage in stages() {
        let layers = stage.manifest(T);
        assert!(
            layers.queue_timeout.is_none() || layers.queue,
            "{} times out nothing",
            stage.to_string()
        );
    }
    assert!(Stage::Wait.manifest(T).queue_timeout.is_none(), "the unbounded wait");
    assert!(Stage::Queue.manifest(T).queue_timeout.is_some(), "the deadline that ends it");
    assert_ne!(Stage::Queue.manifest(T).queue_timeout, Stage::Queue.manifest(T * 2).queue_timeout);
}

#[test]
fn each_stage_draws_a_distinct_picture() {
    for (i, a) in stages().into_iter().enumerate() {
        for b in stages().into_iter().skip(i + 1) {
            assert_ne!(
                a.manifest(T),
                b.manifest(T),
                "{} and {} draw the same picture",
                a.to_string(),
                b.to_string()
            );
        }
    }
}

#[test]
fn manifests_are_spelled_out() {
    assert_eq!(Stage::App.manifest(T), Layers::default());
    assert_eq!(
        Stage::Queue.manifest(T),
        Layers {
            backpressure: false,
            limit: Some(QUEUE_LIMIT),
            reject: false,
            queue: true,
            queue_timeout: Some(T),
        }
    );
    assert_eq!((REJECT_LIMIT, QUEUE_LIMIT), (8, 24));
    assert_eq!(Stage::default(), Stage::Queue);
    assert_eq!(Stage::parse("wait"), Ok(Stage::Wait));
    assert_eq!(Stage::parse(""), Err(()));
}

#[test]
fn the_listing_is_that_of_the_stage_and_its_gate() {
    let sources = Sources {
        backpressure: "bp",
        reject: "rj",
        wait: "wt",
        queue_naive: "qn",
        queue: "qu",
        queue_os_cpu: "qo",
    };
    let gates = [None, Some(Gate::RuntimeCpu), Some(Gate::OsCpu)];
    for gate in gates {
        assert_eq!(
            src_for(Stage::App, gate, &sources),
            "// The bare service — no protection.\napp"
        );
        assert_eq!(src_for(Stage::Backpressure, gate, &sources), "bp");
        assert_eq!(src_for(Stage::Reject, gate, &sources), "rj");
        assert_eq!(src_for(Stage::Wait, gate, &sources), "wt");
    }
    let queues = gates.map(|gate| src_for(Stage::Queue, gate, &sources));
    assert_eq!(queues, ["qn", "qu", "qo"]);
}
