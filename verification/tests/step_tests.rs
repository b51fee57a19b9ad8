use std::time::Duration;

use undine::parallel::{aggregate_children, BlockOutcome, ChildOutcome};
use undine::step::{
    collect_failures, plan_child, plan_top, worker_count, worker_should_run, Execution, RunnerKind,
    StepErrorKind,
};
use undine::StepPolicy;

#[test]
fn mutable_step_is_planned_as_one_run() {
    let policy = StepPolicy::default();
    assert_eq!(plan_top("test", RunnerKind::Mutable, &policy).unwrap(), Execution::Mutable);
}

#[test]
fn readonly_step_at_top_level_is_planned_as_one_worker() {
    let policy = StepPolicy::default();
    assert_eq!(
        plan_top("ro", RunnerKind::ReadOnly, &policy).unwrap(),
        Execution::ReadOnly { workers: 1, until_deadline: false }
    );
}

#[test]
fn mutable_step_with_workers_errors() {
    let policy = StepPolicy { workers: 4, duration: None };
    let err = plan_top("bad", RunnerKind::Mutable, &policy).unwrap_err();
    assert!(err.message().contains("requires run_readonly"));
    assert_eq!(err.message(), "step 'bad': workers > 1 requires run_readonly");
}

#[test]
fn step_without_func_errors() {
    let policy = StepPolicy::default();
    let err = plan_top("empty", RunnerKind::Missing, &policy).unwrap_err();
    assert_eq!(err.kind, StepErrorKind::NoFunction);
    assert_eq!(err.message(), "step 'empty' has no function attached");
}

#[test]
fn mutable_step_with_duration_errors() {
    let policy = StepPolicy { workers: 1, duration: Some(Duration::from_millis(5)) };
    let err = plan_top("d", RunnerKind::Mutable, &policy).unwrap_err();
    assert_eq!(err.message(), "step 'd': duration requires run_readonly");
}

#[test]
fn mutable_child_in_parallel_errors() {
    let err = plan_child("m", RunnerKind::Mutable, &StepPolicy::default()).unwrap_err();
    assert_eq!(err.kind, StepErrorKind::MutableInParallel);
    assert_eq!(err.message(), "step 'm' inside Parallel must use run_readonly");
    assert!(plan_child("n", RunnerKind::Missing, &StepPolicy::default()).is_err());
}

#[test]
fn readonly_child_with_workers_and_duration() {
    let policy = StepPolicy { workers: 4, duration: Some(Duration::from_millis(50)) };
    assert_eq!(
        plan_child("read", RunnerKind::ReadOnly, &policy).unwrap(),
        Execution::ReadOnly { workers: 4, until_deadline: true }
    );
}

#[test]
fn zero_workers_means_one() {
    let policy = StepPolicy { workers: 0, duration: None };
    assert_eq!(worker_count(&policy), 1);
}

#[test]
fn worker_loop_decisions() {
    assert!(worker_should_run(false, 0, false));
    assert!(!worker_should_run(false, 1, true));
    assert!(worker_should_run(true, 7, true));
    assert!(!worker_should_run(true, 0, false));
}

#[test]
fn every_failure_is_collected() {
    assert_eq!(collect_failures(&vec![true, false, false]), vec![1, 2]);
    assert_eq!(collect_failures(&vec![false, true, false, true]), vec![0, 2]);
    assert!(collect_failures(&vec![true, true]).is_empty());
}

#[test]
fn framework_failure_dominates() {
    let r = aggregate_children(&vec![
        ChildOutcome::StepFailed,
        ChildOutcome::FrameworkFailed,
        ChildOutcome::FrameworkFailed,
    ]);
    assert_eq!(r, BlockOutcome::FrameworkFailed { first: 1 });
}

#[test]
fn step_failures_are_counted() {
    let r = aggregate_children(&vec![
        ChildOutcome::Succeeded,
        ChildOutcome::StepFailed,
        ChildOutcome::StepFailed,
    ]);
    assert_eq!(r, BlockOutcome::StepFailed { failures: 2, first: 1 });
    assert_eq!(
        aggregate_children(&vec![ChildOutcome::Succeeded; 3]),
        BlockOutcome::Succeeded
    );
    assert_eq!(aggregate_children(&vec![]), BlockOutcome::Succeeded);
}
