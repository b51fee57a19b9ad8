use std::time::Duration;

use vstd::prelude::*;

use crate::text::concat3;

verus! {

/// Execution policy attached to a step.
#[derive(Debug, Clone)]
pub struct StepPolicy {
    pub workers: usize,
    pub duration: Option<Duration>,
}

impl Default for StepPolicy {
    fn default() -> (r: Self)
        ensures
            r.workers == 1,
            r.duration is None,
    {
        StepPolicy { workers: 1, duration: None }
    }
}

/// Which body a step carries.
#[derive(Debug, Clone, Copy, PartialEq, Eq, Structural)]
pub enum RunnerKind {
    /// A body that takes the context mutably (top-level orchestration).
    Mutable,
    /// A body that takes the context read-only (parallel / concurrent work).
    ReadOnly,
    /// No body attached.
    Missing,
}

/// How a step's body is to be run.
#[derive(Debug, Clone, Copy, PartialEq, Eq, Structural)]
pub enum Execution {
    /// Run the mutable body once.
    Mutable,
    /// Run the read-only body in `workers` concurrent workers; each worker
    /// runs it once, or, with `until_deadline`, over and over until the
    /// step's duration has elapsed.
    ReadOnly { workers: usize, until_deadline: bool },
}

/// Why a step cannot be run as configured.
#[derive(Debug, Clone, Copy, PartialEq, Eq, Structural)]
pub enum StepErrorKind {
    /// A mutable body with a worker count other than one.
    WorkersNeedReadOnly,
    /// A mutable body with a duration.
    DurationNeedsReadOnly,
    /// No body attached.
    NoFunction,
    /// A mutable body inside a parallel block.
    MutableInParallel,
}

/// A step configuration error: the step's name and what is wrong.
#[derive(Debug, Clone)]
pub struct StepError {
    pub step: String,
    pub kind: StepErrorKind,
}

/// The text of a step configuration error.
pub open spec fn step_error_text(kind: StepErrorKind, name: Seq<char>) -> Seq<char> {
    match kind {
        StepErrorKind::WorkersNeedReadOnly => "step '"@ + name
            + "': workers > 1 requires run_readonly"@,
        StepErrorKind::DurationNeedsReadOnly => "step '"@ + name
            + "': duration requires run_readonly"@,
        StepErrorKind::NoFunction => "step '"@ + name + "' has no function attached"@,
        StepErrorKind::MutableInParallel => "step '"@ + name
            + "' inside Parallel must use run_readonly"@,
    }
}

impl StepError {
    /// Human-readable description.
    pub fn message(&self) -> (r: String)
        ensures
            r@ == step_error_text(self.kind, self.step@),
    {
        let name = self.step.as_str();
        match self.kind {
            StepErrorKind::WorkersNeedReadOnly => concat3(
                "step '",
                name,
                "': workers > 1 requires run_readonly",
            ),
            StepErrorKind::DurationNeedsReadOnly => concat3(
                "step '",
                name,
                "': duration requires run_readonly",
            ),
            StepErrorKind::NoFunction => concat3("step '", name, "' has no function attached"),
            StepErrorKind::MutableInParallel => concat3(
                "step '",
                name,
                "' inside Parallel must use run_readonly",
            ),
        }
    }
}

/// Number of concurrent workers for a read-only body: the configured count,
/// at least one.
pub open spec fn worker_count_spec(workers: usize) -> usize {
    if workers == 0 {
        1
    } else {
        workers
    }
}

/// How a read-only body is run under a policy.
pub open spec fn read_only_plan(policy: StepPolicy) -> Execution {
    Execution::ReadOnly {
        workers: worker_count_spec(policy.workers),
        until_deadline: policy.duration is Some,
    }
}

/// How a step runs as a top-level scenario node, or why it cannot.
pub open spec fn top_plan(kind: RunnerKind, policy: StepPolicy) -> Result<
    Execution,
    StepErrorKind,
> {
    match kind {
        RunnerKind::Mutable => if policy.workers != 1 {
            Err(StepErrorKind::WorkersNeedReadOnly)
        } else if policy.duration is Some {
            Err(StepErrorKind::DurationNeedsReadOnly)
        } else {
            Ok(Execution::Mutable)
        },
        RunnerKind::ReadOnly => Ok(read_only_plan(policy)),
        RunnerKind::Missing => Err(StepErrorKind::NoFunction),
    }
}

/// How a step runs as a child of a parallel block, or why it cannot.
pub open spec fn child_plan(kind: RunnerKind, policy: StepPolicy) -> Result<
    Execution,
    StepErrorKind,
> {
    match kind {
        RunnerKind::ReadOnly => Ok(read_only_plan(policy)),
        RunnerKind::Mutable => Err(StepErrorKind::MutableInParallel),
        RunnerKind::Missing => Err(StepErrorKind::NoFunction),
    }
}

/// The kind of a planning result.
pub open spec fn plan_outcome(r: Result<Execution, StepError>) -> Result<Execution, StepErrorKind> {
    match r {
        Ok(e) => Ok(e),
        Err(e) => Err(e.kind),
    }
}

/// Number of concurrent workers for a read-only body.
pub fn worker_count(policy: &StepPolicy) -> (r: usize)
    ensures
        r == worker_count_spec(policy.workers),
        r >= 1,
{
    if policy.workers == 0 {
        1
    } else {
        policy.workers
    }
}

fn read_only(policy: &StepPolicy) -> (r: Execution)
    ensures
        r == read_only_plan(*policy),
{
    Execution::ReadOnly { workers: worker_count(policy), until_deadline: policy.duration.is_some() }
}

/// Decide how a step runs as a top-level scenario node.
pub fn plan_top(name: &str, kind: RunnerKind, policy: &StepPolicy) -> (r: Result<
    Execution,
    StepError,
>)
    ensures
        plan_outcome(r) == top_plan(kind, *policy),
        r matches Err(e) ==> e.step@ == name@,
{
    match kind {
        RunnerKind::Mutable => {
            if policy.workers != 1 {
                Err(StepError { step: name.to_owned(), kind: StepErrorKind::WorkersNeedReadOnly })
            } else if policy.duration.is_some() {
                Err(StepError { step: name.to_owned(), kind: StepErrorKind::DurationNeedsReadOnly })
            } else {
                Ok(Execution::Mutable)
            }
        },
        RunnerKind::ReadOnly => Ok(read_only(policy)),
        RunnerKind::Missing => Err(
            StepError { step: name.to_owned(), kind: StepErrorKind::NoFunction },
        ),
    }
}

/// Decide how a step runs as a child of a parallel block.
pub fn plan_child(name: &str, kind: RunnerKind, policy: &StepPolicy) -> (r: Result<
    Execution,
    StepError,
>)
    ensures
        plan_outcome(r) == child_plan(kind, *policy),
        r matches Err(e) ==> e.step@ == name@,
{
    match kind {
        RunnerKind::ReadOnly => Ok(read_only(policy)),
        RunnerKind::Mutable => Err(
            StepError { step: name.to_owned(), kind: StepErrorKind::MutableInParallel },
        ),
        RunnerKind::Missing => Err(
            StepError { step: name.to_owned(), kind: StepErrorKind::NoFunction },
        ),
    }
}

/// Whether a worker runs its body (again): once without a deadline, and
/// while the deadline has not passed with one. A failed run ends the worker.
pub open spec fn worker_continues(
    until_deadline: bool,
    runs_done: nat,
    before_deadline: bool,
) -> bool {
    if until_deadline {
        before_deadline
    } else {
        runs_done == 0
    }
}

/// Decide whether a worker runs its body (again).
pub fn worker_should_run(until_deadline: bool, runs_done: u64, before_deadline: bool) -> (r: bool)
    ensures
        r == worker_continues(until_deadline, runs_done as nat, before_deadline),
{
    if until_deadline {
        before_deadline
    } else {
        runs_done == 0
    }
}

/// Positions of the failed results, in order.
pub open spec fn failed_positions(ok: Seq<bool>) -> Seq<usize>
    decreases ok.len(),
{
    if ok.len() == 0 {
        Seq::empty()
    } else {
        let prev = failed_positions(ok.drop_last());
        if ok.last() {
            prev
        } else {
            prev.push((ok.len() - 1) as usize)
        }
    }
}

/// Every failure of a concurrent group is collected: the positions of all
/// failed results, in increasing order.
pub fn collect_failures(ok: &Vec<bool>) -> (r: Vec<usize>)
    ensures
        r@ == failed_positions(ok@),
{
    let mut out: Vec<usize> = Vec::new();
    let mut i: usize = 0;
    while i < ok.len()
        invariant
            i <= ok@.len(),
            out@ == failed_positions(ok@.take(i as int)),
        decreases ok@.len() - i,
    {
        assert(ok@.take(i + 1).drop_last() =~= ok@.take(i as int));
        if !ok[i] {
            out.push(i);
        }
        i = i + 1;
    }
    assert(ok@.take(i as int) =~= ok@);
    out
}

/// The failed positions are exactly the failed results, each once, in
/// increasing order.
pub proof fn lemma_failed_positions(ok: Seq<bool>)
    requires
        ok.len() <= usize::MAX,
    ensures
        forall|j: int|
            0 <= j < failed_positions(ok).len() ==> (#[trigger] failed_positions(ok)[j]) < ok.len()
                && !ok[failed_positions(ok)[j] as int],
        forall|i: int, j: int|
            0 <= i < j < failed_positions(ok).len() ==> #[trigger] failed_positions(ok)[i]
                < #[trigger] failed_positions(ok)[j],
        forall|k: int|
            0 <= k < ok.len() && !#[trigger] ok[k] ==> failed_positions(ok).contains(k as usize),
    decreases ok.len(),
{
    if ok.len() > 0 {
        let prev = ok.drop_last();
        lemma_failed_positions(prev);
        let fp = failed_positions(prev);
        let cur = failed_positions(ok);
        assert forall|j: int| 0 <= j < fp.len() implies fp[j] < prev.len() && ok[fp[j] as int]
            == prev[fp[j] as int] by {}
        assert forall|k: int| 0 <= k < ok.len() && !#[trigger] ok[k] implies cur.contains(
            k as usize,
        ) by {
            if k < ok.len() - 1 {
                assert(!prev[k]);
                let j = choose|j: int| 0 <= j < fp.len() && fp[j] == k as usize;
                assert(cur[j] == fp[j]);
            } else {
                assert(cur[fp.len() as int] == k as usize);
            }
        }
    }
}

/// A read-only body runs the same way at the top level and inside a
/// parallel block: in the configured number of workers (at least one), and
/// each worker loops until the deadline exactly when the policy has a
/// duration, whatever the worker count. With a duration a worker runs again
/// for as long as the deadline has not passed, however many runs it has
/// done; without one it runs once.
pub proof fn lemma_read_only_loops_with_duration(
    policy: StepPolicy,
    runs_done: nat,
    before_deadline: bool,
)
    ensures
        child_plan(RunnerKind::ReadOnly, policy) == top_plan(RunnerKind::ReadOnly, policy),
        top_plan(RunnerKind::ReadOnly, policy) matches Ok(
            Execution::ReadOnly { workers, until_deadline },
        ) && workers == (if policy.workers == 0 {
            1
        } else {
            policy.workers
        }) && until_deadline == (policy.duration is Some) && worker_continues(
            until_deadline,
            runs_done,
            before_deadline,
        ) == (if policy.duration is Some {
            before_deadline
        } else {
            runs_done == 0
        }),
{
}

/// A mutable body runs once, and only as a top-level step with one worker
/// and no duration; with more (or no) workers or with a duration it is
/// refused, the worker count checked first. Inside a parallel block it is
/// always refused, and a step without a body is refused everywhere.
pub proof fn lemma_mutable_runs_once(policy: StepPolicy)
    ensures
        top_plan(RunnerKind::Mutable, policy) is Ok <==> policy.workers == 1
            && policy.duration is None,
        top_plan(RunnerKind::Mutable, policy) is Ok ==> top_plan(RunnerKind::Mutable, policy)
            == Ok::<Execution, StepErrorKind>(Execution::Mutable),
        policy.workers != 1 ==> top_plan(RunnerKind::Mutable, policy) == Err::<
            Execution,
            StepErrorKind,
        >(StepErrorKind::WorkersNeedReadOnly),
        policy.workers == 1 && policy.duration is Some ==> top_plan(RunnerKind::Mutable, policy)
            == Err::<Execution, StepErrorKind>(StepErrorKind::DurationNeedsReadOnly),
        child_plan(RunnerKind::Mutable, policy) == Err::<Execution, StepErrorKind>(
            StepErrorKind::MutableInParallel,
        ),
        top_plan(RunnerKind::Missing, policy) == Err::<Execution, StepErrorKind>(
            StepErrorKind::NoFunction,
        ),
        child_plan(RunnerKind::Missing, policy) == Err::<Execution, StepErrorKind>(
            StepErrorKind::NoFunction,
        ),
{
}

} // verus!
