use undine::{HookPoint, NodeShape, RunAction, RunStep, ScenarioRun};

/// Drives a run, failing the actions for which `fails` says so; returns the
/// actions performed and whether the run succeeded.
fn drive(
    points: &[HookPoint],
    shapes: &[NodeShape],
    fails: impl Fn(&RunAction) -> bool,
) -> (Vec<RunAction>, bool) {
    let mut run = ScenarioRun::new(&points.to_vec(), &shapes.to_vec());
    let mut done = Vec::new();
    loop {
        match run.next() {
            RunStep::Perform(a) => {
                done.push(a);
                run.report(!fails(&a));
            }
            RunStep::Finished { success } => return (done, success),
        }
    }
}

fn label(a: &RunAction, names: &[&str], hooks: &[&str]) -> String {
    match a {
        RunAction::BeforeHook { node, hook, .. } => format!("{}:{}", hooks[*hook], names[*node]),
        RunAction::Body { node } => format!("step:{}", names[*node]),
        RunAction::AfterHook { node, hook, .. } => format!("{}:{}", hooks[*hook], names[*node]),
    }
}

/// Labels of what ran before the body of `node` started.
fn before_body(done: &[RunAction], node: usize, names: &[&str], hooks: &[&str]) -> Vec<String> {
    let end = done
        .iter()
        .position(|a| *a == RunAction::Body { node })
        .unwrap();
    done[..end].iter().map(|a| label(a, names, hooks)).collect()
}

#[test]
fn scenario_runs_steps_in_order() {
    let (done, ok) = drive(&[], &[NodeShape::Step; 3], |_| false);
    assert!(ok);
    assert_eq!(
        done,
        vec![
            RunAction::Body { node: 0 },
            RunAction::Body { node: 1 },
            RunAction::Body { node: 2 }
        ]
    );
}

#[test]
fn scenario_stops_on_failure() {
    let (done, ok) = drive(&[], &[NodeShape::Step; 2], |a| *a == RunAction::Body { node: 0 });
    assert!(!ok);
    assert_eq!(done, vec![RunAction::Body { node: 0 }]);
}

#[test]
fn empty_scenario_succeeds() {
    let (done, ok) = drive(&[], &[], |_| false);
    assert!(ok);
    assert!(done.is_empty());
}

#[test]
fn before_step_runs_before_each_step() {
    let names = ["A", "B", "collect"];
    let hooks = ["before"];
    let (done, ok) = drive(&[HookPoint::BeforeStep], &[NodeShape::Step; 3], |_| false);
    assert!(ok);
    assert_eq!(
        before_body(&done, 2, &names, &hooks),
        vec!["before:A", "step:A", "before:B", "step:B", "before:collect"]
    );
}

#[test]
fn after_step_runs_after_each_step() {
    let names = ["A", "B", "collect"];
    let hooks = ["after"];
    let (done, ok) = drive(&[HookPoint::AfterStep], &[NodeShape::Step; 3], |_| false);
    assert!(ok);
    assert_eq!(
        before_body(&done, 2, &names, &hooks),
        vec!["step:A", "after:A", "step:B", "after:B"]
    );
}

#[test]
fn hooks_run_in_insertion_order() {
    let points = [
        HookPoint::BeforeStep,
        HookPoint::BeforeStep,
        HookPoint::AfterStep,
        HookPoint::AfterStep,
    ];
    let (done, _) = drive(&points, &[NodeShape::Step; 2], |_| false);
    let labels: Vec<String> = {
        let end = done.iter().position(|a| *a == RunAction::Body { node: 1 }).unwrap();
        done[..end]
            .iter()
            .map(|a| match a {
                RunAction::BeforeHook { hook, .. } => ["b1", "b2", "a1", "a2"][*hook].to_string(),
                RunAction::AfterHook { hook, .. } => ["b1", "b2", "a1", "a2"][*hook].to_string(),
                RunAction::Body { .. } => "step".to_string(),
            })
            .collect()
    };
    assert_eq!(labels, vec!["b1", "b2", "step", "a1", "a2", "b1", "b2"]);
}

#[test]
fn stops_when_before_step_hook_fails() {
    let (done, ok) = drive(&[HookPoint::BeforeStep], &[NodeShape::Step], |a| {
        matches!(a, RunAction::BeforeHook { .. })
    });
    assert!(!ok);
    assert_eq!(done, vec![RunAction::BeforeHook { node: 0, child: 0, hook: 0 }]);
}

#[test]
fn stops_when_after_step_hook_fails() {
    let (done, ok) = drive(&[HookPoint::AfterStep], &[NodeShape::Step; 2], |a| {
        matches!(a, RunAction::AfterHook { .. })
    });
    assert!(!ok);
    assert_eq!(
        done,
        vec![
            RunAction::Body { node: 0 },
            RunAction::AfterHook { node: 0, child: 0, hook: 0 }
        ]
    );
}

#[test]
fn after_step_skipped_when_step_fails() {
    let points = [HookPoint::BeforeStep, HookPoint::AfterStep];
    let (done, ok) = drive(&points, &[NodeShape::Step; 2], |a| *a == RunAction::Body { node: 1 });
    assert!(!ok);
    assert_eq!(done.last(), Some(&RunAction::Body { node: 1 }));
    assert!(!done.contains(&RunAction::AfterHook { node: 1, child: 0, hook: 1 }));
}

#[test]
fn after_step_not_called_on_step_failure_observable() {
    let points = [HookPoint::BeforeStep, HookPoint::AfterStep];
    let (done, ok) = drive(&points, &[NodeShape::Step; 2], |a| *a == RunAction::Body { node: 1 });
    assert!(!ok);
    let before = done.iter().filter(|a| matches!(a, RunAction::BeforeHook { .. })).count();
    let after = done.iter().filter(|a| matches!(a, RunAction::AfterHook { .. })).count();
    assert_eq!(before, 2);
    assert_eq!(after, 1);
}

#[test]
fn parallel_block_runs_child_hooks_around_one_body() {
    let points = [HookPoint::BeforeStep, HookPoint::AfterStep];
    let shapes = [NodeShape::Step, NodeShape::Parallel { children: 2 }, NodeShape::Step];
    let (done, ok) = drive(&points, &shapes, |_| false);
    assert!(ok);
    assert_eq!(
        done,
        vec![
            RunAction::BeforeHook { node: 0, child: 0, hook: 0 },
            RunAction::Body { node: 0 },
            RunAction::AfterHook { node: 0, child: 0, hook: 1 },
            RunAction::BeforeHook { node: 1, child: 0, hook: 0 },
            RunAction::BeforeHook { node: 1, child: 1, hook: 0 },
            RunAction::Body { node: 1 },
            RunAction::AfterHook { node: 1, child: 0, hook: 1 },
            RunAction::AfterHook { node: 1, child: 1, hook: 1 },
            RunAction::BeforeHook { node: 2, child: 0, hook: 0 },
            RunAction::Body { node: 2 },
            RunAction::AfterHook { node: 2, child: 0, hook: 1 },
        ]
    );
}

#[test]
fn failed_parallel_block_skips_after_hooks() {
    let points = [HookPoint::AfterStep];
    let shapes = [NodeShape::Parallel { children: 3 }];
    let (done, ok) = drive(&points, &shapes, |a| *a == RunAction::Body { node: 0 });
    assert!(!ok);
    assert_eq!(done, vec![RunAction::Body { node: 0 }]);
}

#[test]
fn report_after_end_changes_nothing() {
    let mut run = ScenarioRun::new(&vec![], &vec![NodeShape::Step]);
    run.report(false);
    assert_eq!(run.next(), RunStep::Finished { success: false });
    run.report(true);
    assert_eq!(run.next(), RunStep::Finished { success: false });
}
