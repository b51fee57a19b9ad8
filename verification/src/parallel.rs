use vstd::prelude::*;

verus! {

/// How one child of a parallel block ended.
#[derive(Debug, Clone, Copy, PartialEq, Eq, Structural)]
pub enum ChildOutcome {
    /// The child's body (every worker) succeeded.
    Succeeded,
    /// The child's body returned an error.
    StepFailed,
    /// The harness could not run the child (e.g. a mutable body, or none).
    FrameworkFailed,
}

/// How a parallel block ended, all children having finished.
#[derive(Debug, Clone, Copy, PartialEq, Eq, Structural)]
pub enum BlockOutcome {
    Succeeded,
    /// No framework failure; `failures` children failed, the first of them
    /// at index `first`.
    StepFailed { failures: usize, first: usize },
    /// A framework failure dominates; the first one is at index `first`.
    FrameworkFailed { first: usize },
}

/// Number of children whose body failed.
pub open spec fn step_failures(s: Seq<ChildOutcome>) -> nat
    decreases s.len(),
{
    if s.len() == 0 {
        0
    } else {
        step_failures(s.drop_last()) + if s.last() == ChildOutcome::StepFailed {
            1nat
        } else {
            0nat
        }
    }
}

/// Combine the outcomes of the children of a parallel block (wait-all): a
/// framework failure dominates and the first one is reported; otherwise
/// step failures are counted and the first one is reported.
pub fn aggregate_children(outcomes: &Vec<ChildOutcome>) -> (r: BlockOutcome)
    ensures
        (r is FrameworkFailed) <==> exists|i: int|
            0 <= i < outcomes@.len() && outcomes@[i] == ChildOutcome::FrameworkFailed,
        r matches BlockOutcome::FrameworkFailed { first } ==> first < outcomes@.len()
            && outcomes@[first as int] == ChildOutcome::FrameworkFailed && forall|j: int|
            0 <= j < first ==> outcomes@[j] != ChildOutcome::FrameworkFailed,
        r matches BlockOutcome::StepFailed { failures, first } ==> failures == step_failures(
            outcomes@,
        ) && failures > 0 && first < outcomes@.len() && outcomes@[first as int]
            == ChildOutcome::StepFailed && forall|j: int|
            0 <= j < first ==> outcomes@[j] != ChildOutcome::StepFailed,
        (r is Succeeded) <==> forall|i: int|
            0 <= i < outcomes@.len() ==> outcomes@[i] == ChildOutcome::Succeeded,
{
    let mut failures: usize = 0;
    let mut first_step: Option<usize> = None;
    let mut i: usize = 0;
    while i < outcomes.len()
        invariant
            i <= outcomes@.len(),
            forall|j: int| 0 <= j < i ==> outcomes@[j] != ChildOutcome::FrameworkFailed,
            failures == step_failures(outcomes@.take(i as int)),
            failures <= i,
            first_step is None <==> failures == 0,
            first_step matches Some(f) ==> f < i && outcomes@[f as int] == ChildOutcome::StepFailed
                && forall|j: int| 0 <= j < f ==> outcomes@[j] != ChildOutcome::StepFailed,
            first_step is None ==> forall|j: int| 0 <= j < i ==> outcomes@[j] == ChildOutcome::Succeeded,
        decreases outcomes@.len() - i,
    {
        assert(outcomes@.take(i + 1).drop_last() =~= outcomes@.take(i as int));
        match outcomes[i] {
            ChildOutcome::FrameworkFailed => {
                return BlockOutcome::FrameworkFailed { first: i };
            },
            ChildOutcome::StepFailed => {
                if first_step.is_none() {
                    first_step = Some(i);
                }
                failures = failures + 1;
            },
            ChildOutcome::Succeeded => {},
        }
        i = i + 1;
    }
    assert(outcomes@.take(i as int) =~= outcomes@);
    match first_step {
        None => BlockOutcome::Succeeded,
        Some(first) => BlockOutcome::StepFailed { failures, first },
    }
}

} // verus!
