use vstd::prelude::*;

use crate::hook::HookPoint;

verus! {

/// The shape of a top-level scenario node.
#[derive(Debug, Clone, Copy, PartialEq, Eq, Structural)]
pub enum NodeShape {
    /// A single step.
    Step,
    /// A parallel block of `children` steps whose bodies run together.
    Parallel { children: usize },
}

/// One thing the scenario runner does.
#[derive(Debug, Clone, Copy, PartialEq, Eq, Structural)]
pub enum RunAction {
    /// Run hook `hook` (a before-step hook) for child `child` of node `node`.
    BeforeHook { node: usize, child: usize, hook: usize },
    /// Run the body of node `node` (all children's bodies, for a parallel
    /// block).
    Body { node: usize },
    /// Run hook `hook` (an after-step hook) for child `child` of node `node`.
    AfterHook { node: usize, child: usize, hook: usize },
}

/// The action that runs hook `hook` at `point` for a child of a node.
pub open spec fn hook_action(point: HookPoint, node: usize, child: usize, hook: usize) -> RunAction {
    match point {
        HookPoint::BeforeStep => RunAction::BeforeHook { node, child, hook },
        HookPoint::AfterStep => RunAction::AfterHook { node, child, hook },
    }
}

/// The hooks among the first `upto` that run at `point`, in insertion order,
/// for one child of a node.
pub open spec fn hook_run(
    points: Seq<HookPoint>,
    point: HookPoint,
    node: usize,
    child: usize,
    upto: nat,
) -> Seq<RunAction>
    decreases upto,
{
    if upto == 0 {
        Seq::empty()
    } else {
        let h = (upto - 1) as nat;
        let prev = hook_run(points, point, node, child, h);
        if points[h as int] == point {
            prev.push(hook_action(point, node, child, h as usize))
        } else {
            prev
        }
    }
}

/// The hooks at `point` for the first `children` children of a node, child
/// after child.
pub open spec fn children_hooks(
    points: Seq<HookPoint>,
    point: HookPoint,
    node: usize,
    children: nat,
) -> Seq<RunAction>
    decreases children,
{
    if children == 0 {
        Seq::empty()
    } else {
        children_hooks(points, point, node, (children - 1) as nat) + hook_run(
            points,
            point,
            node,
            (children - 1) as usize,
            points.len(),
        )
    }
}

/// Number of steps in a node.
pub open spec fn width(shape: NodeShape) -> nat {
    match shape {
        NodeShape::Step => 1,
        NodeShape::Parallel { children } => children as nat,
    }
}

/// What the runner does for one node: the before-step hooks of each of its
/// steps, then its body, then the after-step hooks of each of its steps.
pub open spec fn node_schedule(points: Seq<HookPoint>, node: usize, shape: NodeShape) -> Seq<
    RunAction,
> {
    children_hooks(points, HookPoint::BeforeStep, node, width(shape)) + seq![
        RunAction::Body { node },
    ] + children_hooks(points, HookPoint::AfterStep, node, width(shape))
}

/// Everything the runner does when every action succeeds: the nodes' own
/// schedules, node after node.
pub open spec fn schedule(points: Seq<HookPoint>, shapes: Seq<NodeShape>) -> Seq<RunAction>
    decreases shapes.len(),
{
    if shapes.len() == 0 {
        Seq::empty()
    } else {
        schedule(points, shapes.drop_last()) + node_schedule(
            points,
            (shapes.len() - 1) as usize,
            shapes.last(),
        )
    }
}

/// Appends the hooks at `point` for one child of a node.
fn push_hook_run(
    out: &mut Vec<RunAction>,
    points: &Vec<HookPoint>,
    point: HookPoint,
    node: usize,
    child: usize,
)
    ensures
        final(out)@ == old(out)@ + hook_run(points@, point, node, child, points@.len()),
{
    let ghost start = out@;
    let mut h: usize = 0;
    assert(start =~= start + hook_run(points@, point, node, child, 0));
    while h < points.len()
        invariant
            h <= points@.len(),
            out@ == start + hook_run(points@, point, node, child, h as nat),
        decreases points@.len() - h,
    {
        if points[h] == point {
            let a = match point {
                HookPoint::BeforeStep => RunAction::BeforeHook { node, child, hook: h },
                HookPoint::AfterStep => RunAction::AfterHook { node, child, hook: h },
            };
            out.push(a);
        }
        h = h + 1;
        assert(out@ =~= start + hook_run(points@, point, node, child, h as nat));
    }
}

/// Appends the hooks at `point` for the first `children` children of a node.
fn push_children_hooks(
    out: &mut Vec<RunAction>,
    points: &Vec<HookPoint>,
    point: HookPoint,
    node: usize,
    children: usize,
)
    ensures
        final(out)@ == old(out)@ + children_hooks(points@, point, node, children as nat),
{
    let ghost start = out@;
    let mut c: usize = 0;
    assert(start =~= start + children_hooks(points@, point, node, 0));
    while c < children
        invariant
            c <= children,
            out@ == start + children_hooks(points@, point, node, c as nat),
        decreases children - c,
    {
        push_hook_run(out, points, point, node, c);
        c = c + 1;
        assert(out@ =~= start + children_hooks(points@, point, node, c as nat));
    }
}

/// Builds the full schedule of a scenario.
pub fn build_schedule(points: &Vec<HookPoint>, shapes: &Vec<NodeShape>) -> (r: Vec<RunAction>)
    ensures
        r@ == schedule(points@, shapes@),
{
    let mut out: Vec<RunAction> = Vec::new();
    let mut n: usize = 0;
    assert(shapes@.take(0) =~= Seq::<NodeShape>::empty());
    while n < shapes.len()
        invariant
            n <= shapes@.len(),
            out@ == schedule(points@, shapes@.take(n as int)),
        decreases shapes@.len() - n,
    {
        let shape = shapes[n];
        let w: usize = match shape {
            NodeShape::Step => 1,
            NodeShape::Parallel { children } => children,
        };
        let ghost before = out@;
        push_children_hooks(&mut out, points, HookPoint::BeforeStep, n, w);
        out.push(RunAction::Body { node: n });
        push_children_hooks(&mut out, points, HookPoint::AfterStep, n, w);
        proof {
            assert(shapes@.take(n + 1).drop_last() =~= shapes@.take(n as int));
            assert(shapes@.take(n + 1).last() == shape);
            assert(out@ =~= before + node_schedule(points@, n, shape));
        }
        n = n + 1;
    }
    assert(shapes@.take(n as int) =~= shapes@);
    out
}

/// Whether an action is an after-step hook.
pub open spec fn is_after_hook(a: RunAction) -> bool {
    a is AfterHook
}

/// Whether an action is a before-step hook.
pub open spec fn is_before_hook(a: RunAction) -> bool {
    a is BeforeHook
}

/// Whether an action is a node's body.
pub open spec fn is_body(a: RunAction) -> bool {
    a is Body
}

/// Whether an action is the body of node `n`.
pub open spec fn is_body_of(a: RunAction, n: usize) -> bool {
    a == (RunAction::Body { node: n })
}

/// The hook index of a hook action.
pub open spec fn hook_of(a: RunAction) -> usize {
    match a {
        RunAction::BeforeHook { hook, .. } => hook,
        RunAction::AfterHook { hook, .. } => hook,
        RunAction::Body { .. } => 0,
    }
}

/// The child index of a hook action.
pub open spec fn child_of(a: RunAction) -> usize {
    match a {
        RunAction::BeforeHook { child, .. } => child,
        RunAction::AfterHook { child, .. } => child,
        RunAction::Body { .. } => 0,
    }
}

/// The node an action belongs to.
pub open spec fn node_of(a: RunAction) -> usize {
    match a {
        RunAction::BeforeHook { node, .. } => node,
        RunAction::AfterHook { node, .. } => node,
        RunAction::Body { node } => node,
    }
}

/// For one step, the hooks registered at a point run in insertion order,
/// each exactly once, and no other hook runs.
pub proof fn lemma_hook_run(
    points: Seq<HookPoint>,
    point: HookPoint,
    node: usize,
    child: usize,
    upto: nat,
)
    requires
        upto <= points.len(),
        points.len() <= usize::MAX,
    ensures
        forall|j: int|
            0 <= j < hook_run(points, point, node, child, upto).len() ==> {
                let a = #[trigger] hook_run(points, point, node, child, upto)[j];
                &&& a == hook_action(point, node, child, hook_of(a))
                &&& hook_of(a) < upto
                &&& points[hook_of(a) as int] == point
            },
        forall|i: int, j: int|
            0 <= i < j < hook_run(points, point, node, child, upto).len() ==> hook_of(
                #[trigger] hook_run(points, point, node, child, upto)[i],
            ) < hook_of(#[trigger] hook_run(points, point, node, child, upto)[j]),
        forall|h: int|
            0 <= h < upto && #[trigger] points[h] == point ==> exists|j: int|
                0 <= j < hook_run(points, point, node, child, upto).len() && hook_of(
                    #[trigger] hook_run(points, point, node, child, upto)[j],
                ) == h,
    decreases upto,
{
    if upto > 0 {
        let h = (upto - 1) as nat;
        lemma_hook_run(points, point, node, child, h);
        let prev = hook_run(points, point, node, child, h);
        let cur = hook_run(points, point, node, child, upto);
        if points[h as int] == point {
            let a = hook_action(point, node, child, h as usize);
            assert(cur == prev.push(a));
            assert(hook_of(a) == h);
            assert forall|g: int| 0 <= g < upto && #[trigger] points[g] == point implies exists|j: int|
                0 <= j < cur.len() && hook_of(#[trigger] cur[j]) == g by {
                if g < h {
                    let j = choose|j: int| 0 <= j < prev.len() && hook_of(#[trigger] prev[j]) == g;
                    assert(cur[j] == prev[j]);
                } else {
                    assert(cur[prev.len() as int] == a);
                }
            }
        } else {
            assert forall|g: int| 0 <= g < upto && #[trigger] points[g] == point implies exists|j: int|
                0 <= j < cur.len() && hook_of(#[trigger] cur[j]) == g by {
                assert(g != h);
            }
        }
    }
}

/// Every action of `children_hooks` is a hook at that point for that node.
proof fn lemma_children_hooks(
    points: Seq<HookPoint>,
    point: HookPoint,
    node: usize,
    children: nat,
)
    requires
        points.len() <= usize::MAX,
    ensures
        forall|j: int|
            0 <= j < children_hooks(points, point, node, children).len() ==> {
                let a = #[trigger] children_hooks(points, point, node, children)[j];
                &&& a == hook_action(point, node, child_of(a), hook_of(a))
                &&& child_of(a) < children
                &&& hook_of(a) < points.len()
                &&& points[hook_of(a) as int] == point
            },
    decreases children,
{
    if children > 0 {
        let c = (children - 1) as nat;
        lemma_children_hooks(points, point, node, c);
        lemma_hook_run(points, point, node, c as usize, points.len());
        let prev = children_hooks(points, point, node, c);
        let run = hook_run(points, point, node, c as usize, points.len());
        let cur = children_hooks(points, point, node, children);
        assert(cur == prev + run);
        assert forall|j: int| 0 <= j < cur.len() implies {
            let a = #[trigger] cur[j];
            &&& a == hook_action(point, node, child_of(a), hook_of(a))
            &&& child_of(a) < children
            &&& hook_of(a) < points.len()
            &&& points[hook_of(a) as int] == point
        } by {
            if j < prev.len() {
                assert(cur[j] == prev[j]);
            } else {
                assert(cur[j] == run[j - prev.len()]);
            }
        }
    }
}

/// One node runs its before-step hooks, then its body, then its after-step
/// hooks.
pub proof fn lemma_node_schedule(points: Seq<HookPoint>, node: usize, shape: NodeShape)
    requires
        points.len() <= usize::MAX,
    ensures
        ({
            let ns = node_schedule(points, node, shape);
            let b = children_hooks(points, HookPoint::BeforeStep, node, width(shape)).len();
            &&& b < ns.len()
            &&& ns[b as int] == RunAction::Body { node }
            &&& forall|j: int| 0 <= j < b ==> is_before_hook(#[trigger] ns[j]) && node_of(ns[j]) == node
            &&& forall|j: int| b < j < ns.len() ==> is_after_hook(#[trigger] ns[j]) && node_of(ns[j]) == node
        }),
{
    let before = children_hooks(points, HookPoint::BeforeStep, node, width(shape));
    let after = children_hooks(points, HookPoint::AfterStep, node, width(shape));
    lemma_children_hooks(points, HookPoint::BeforeStep, node, width(shape));
    lemma_children_hooks(points, HookPoint::AfterStep, node, width(shape));
    let ns = node_schedule(points, node, shape);
    let b = before.len();
    assert forall|j: int| 0 <= j < b implies is_before_hook(#[trigger] ns[j]) && node_of(ns[j]) == node by {
        assert(ns[j] == before[j]);
    }
    assert forall|j: int| b < j < ns.len() implies is_after_hook(#[trigger] ns[j]) && node_of(ns[j]) == node by {
        assert(ns[j] == after[j - b - 1]);
    }
}

/// Over the whole scenario, every before-step hook action of a node comes
/// before that node's body, and every after-step hook action after it; the
/// bodies run node after node.
pub proof fn lemma_schedule_order(points: Seq<HookPoint>, shapes: Seq<NodeShape>)
    requires
        points.len() <= usize::MAX,
        shapes.len() <= usize::MAX,
    ensures
        forall|q: int|
            0 <= q < schedule(points, shapes).len() ==> node_of(
                #[trigger] schedule(points, shapes)[q],
            ) < shapes.len(),
        forall|q: int|
            0 <= q < schedule(points, shapes).len() && is_after_hook(
                #[trigger] schedule(points, shapes)[q],
            ) ==> exists|p: int|
                0 <= p < q && is_body_of(
                    schedule(points, shapes)[p],
                    node_of(schedule(points, shapes)[q]),
                ),
        forall|q: int|
            0 <= q < schedule(points, shapes).len() && is_before_hook(
                #[trigger] schedule(points, shapes)[q],
            ) ==> exists|p: int|
                q < p < schedule(points, shapes).len() && is_body_of(
                    schedule(points, shapes)[p],
                    node_of(schedule(points, shapes)[q]),
                ),
        forall|p: int, q: int|
            0 <= p < q < schedule(points, shapes).len() && is_body(
                #[trigger] schedule(points, shapes)[p],
            ) && is_body(#[trigger] schedule(points, shapes)[q]) ==> node_of(
                schedule(points, shapes)[p],
            ) < node_of(schedule(points, shapes)[q]),
    decreases shapes.len(),
{
    if shapes.len() > 0 {
        let prefix = shapes.drop_last();
        let n = (shapes.len() - 1) as usize;
        lemma_schedule_order(points, prefix);
        lemma_node_schedule(points, n, shapes.last());
        let s0 = schedule(points, prefix);
        let ns = node_schedule(points, n, shapes.last());
        let s = schedule(points, shapes);
        assert(s == s0 + ns);
        let b = children_hooks(points, HookPoint::BeforeStep, n, width(shapes.last())).len();
        assert forall|q: int| 0 <= q < s.len() implies node_of(#[trigger] s[q]) < shapes.len() by {
            if q < s0.len() {
                assert(s[q] == s0[q]);
            } else {
                assert(s[q] == ns[q - s0.len()]);
                if q - s0.len() != b {
                    assert(node_of(ns[q - s0.len()]) == n);
                }
            }
        }
        assert forall|q: int| 0 <= q < s.len() && is_after_hook(#[trigger] s[q]) implies exists|p: int|
            0 <= p < q && is_body_of(s[p], node_of(s[q])) by {
            if q < s0.len() {
                assert(s[q] == s0[q]);
                let p = choose|p: int| 0 <= p < q && is_body_of(s0[p], node_of(s0[q]));
                assert(s[p] == s0[p]);
            } else {
                let j = q - s0.len();
                assert(s[q] == ns[j]);
                assert(j > b);
                assert(s[(s0.len() + b) as int] == ns[b as int]);
            }
        }
        assert forall|q: int| 0 <= q < s.len() && is_before_hook(#[trigger] s[q]) implies exists|p: int|
            q < p < s.len() && is_body_of(s[p], node_of(s[q])) by {
            if q < s0.len() {
                assert(s[q] == s0[q]);
                let p = choose|p: int| q < p < s0.len() && is_body_of(s0[p], node_of(s0[q]));
                assert(s[p] == s0[p]);
            } else {
                let j = q - s0.len();
                assert(s[q] == ns[j]);
                assert(j < b);
                assert(s[(s0.len() + b) as int] == ns[b as int]);
            }
        }
        assert forall|p: int, q: int|
            0 <= p < q < s.len() && is_body(#[trigger] s[p]) && is_body(#[trigger] s[q]) implies node_of(
            s[p],
        ) < node_of(s[q]) by {
            if q < s0.len() {
                assert(s[p] == s0[p]);
                assert(s[q] == s0[q]);
            } else if p < s0.len() {
                assert(s[p] == s0[p]);
                assert(s[q] == ns[q - s0.len()]);
                assert(q - s0.len() == b);
            } else {
                assert(s[p] == ns[p - s0.len()]);
                assert(s[q] == ns[q - s0.len()]);
                assert(p - s0.len() == b);
                assert(q - s0.len() == b);
            }
        }
    }
}

/// Concatenating two sequences without repeats and without a common
/// element gives a sequence without repeats.
proof fn lemma_concat_no_duplicates(a: Seq<RunAction>, b: Seq<RunAction>)
    requires
        a.no_duplicates(),
        b.no_duplicates(),
        forall|i: int, j: int| #![trigger a[i], b[j]] 0 <= i < a.len() && 0 <= j < b.len() ==> a[i] != b[j],
    ensures
        (a + b).no_duplicates(),
{
    let s = a + b;
    assert forall|i: int, j: int| 0 <= i < s.len() && 0 <= j < s.len() && i != j implies s[i] != s[j] by {
        if i < a.len() && j < a.len() {
            assert(s[i] == a[i] && s[j] == a[j]);
        } else if i >= a.len() && j >= a.len() {
            assert(s[i] == b[i - a.len()] && s[j] == b[j - a.len()]);
        } else if i < a.len() {
            assert(s[i] == a[i] && s[j] == b[j - a.len()]);
        } else {
            assert(s[j] == a[j] && s[i] == b[i - a.len()]);
        }
    }
}

/// An element of either part is an element of the concatenation.
proof fn lemma_concat_contains(a: Seq<RunAction>, b: Seq<RunAction>, x: RunAction)
    requires
        a.contains(x) || b.contains(x),
    ensures
        (a + b).contains(x),
{
    if a.contains(x) {
        let j = choose|j: int| 0 <= j < a.len() && a[j] == x;
        assert((a + b)[j] == x);
    } else {
        let j = choose|j: int| 0 <= j < b.len() && b[j] == x;
        assert((a + b)[a.len() + j] == x);
    }
}

/// For one step, each hook registered at a point appears once.
proof fn lemma_hook_run_complete(points: Seq<HookPoint>, point: HookPoint, node: usize, child: usize)
    requires
        points.len() <= usize::MAX,
    ensures
        hook_run(points, point, node, child, points.len()).no_duplicates(),
        forall|h: usize|
            h < points.len() && points[h as int] == point ==> #[trigger] hook_run(
                points,
                point,
                node,
                child,
                points.len(),
            ).contains(hook_action(point, node, child, h)),
{
    lemma_hook_run(points, point, node, child, points.len());
    let run = hook_run(points, point, node, child, points.len());
    assert forall|i: int, j: int| 0 <= i < run.len() && 0 <= j < run.len() && i != j implies run[i]
        != run[j] by {
        if i < j {
            assert(hook_of(run[i]) < hook_of(run[j]));
        } else {
            assert(hook_of(run[j]) < hook_of(run[i]));
        }
    }
    assert forall|h: usize| h < points.len() && points[h as int] == point implies run.contains(
        hook_action(point, node, child, h),
    ) by {
        let hi = h as int;
        assert(points[hi] == point);
        let j = choose|j: int| 0 <= j < run.len() && hook_of(#[trigger] run[j]) == hi;
        assert(run[j] == hook_action(point, node, child, hook_of(run[j])));
    }
}

/// For the first `children` steps of a node, each registered hook at a
/// point appears once per step.
proof fn lemma_children_hooks_complete(
    points: Seq<HookPoint>,
    point: HookPoint,
    node: usize,
    children: nat,
)
    requires
        points.len() <= usize::MAX,
        children <= usize::MAX,
    ensures
        children_hooks(points, point, node, children).no_duplicates(),
        forall|c: usize, h: usize|
            c < children && h < points.len() && points[h as int] == point ==> #[trigger] children_hooks(
                points,
                point,
                node,
                children,
            ).contains(hook_action(point, node, c, h)),
    decreases children,
{
    if children > 0 {
        let c0 = (children - 1) as nat;
        lemma_children_hooks_complete(points, point, node, c0);
        lemma_children_hooks(points, point, node, c0);
        lemma_hook_run(points, point, node, c0 as usize, points.len());
        lemma_hook_run_complete(points, point, node, c0 as usize);
        let prev = children_hooks(points, point, node, c0);
        let run = hook_run(points, point, node, c0 as usize, points.len());
        let cur = children_hooks(points, point, node, children);
        assert(cur == prev + run);
        assert forall|i: int, j: int| #![trigger prev[i], run[j]] 0 <= i < prev.len() && 0 <= j
            < run.len() implies prev[i] != run[j] by {
            assert(child_of(prev[i]) < c0);
            assert(run[j] == hook_action(point, node, c0 as usize, hook_of(run[j])));
        }
        lemma_concat_no_duplicates(prev, run);
        assert forall|c: usize, h: usize|
            c < children && h < points.len() && points[h as int] == point implies #[trigger] cur.contains(
            hook_action(point, node, c, h),
        ) by {
            let x = hook_action(point, node, c, h);
            if c < c0 {
                assert(prev.contains(x));
            } else {
                assert(run.contains(x));
            }
            lemma_concat_contains(prev, run, x);
        }
    }
}

/// One node's schedule: no action twice, each registered hook once per
/// step of the node, and every hook action for one of the node's steps.
proof fn lemma_node_schedule_complete(points: Seq<HookPoint>, node: usize, shape: NodeShape)
    requires
        points.len() <= usize::MAX,
    ensures
        node_schedule(points, node, shape).no_duplicates(),
        forall|c: usize, h: usize, point: HookPoint|
            c < width(shape) && h < points.len() && points[h as int] == point ==> #[trigger] node_schedule(
                points,
                node,
                shape,
            ).contains(hook_action(point, node, c, h)),
        forall|j: int|
            0 <= j < node_schedule(points, node, shape).len() ==> {
                let a = #[trigger] node_schedule(points, node, shape)[j];
                &&& node_of(a) == node
                &&& !is_body(a) ==> child_of(a) < width(shape) && hook_of(a) < points.len()
                &&& is_before_hook(a) ==> points[hook_of(a) as int] == HookPoint::BeforeStep
                &&& is_after_hook(a) ==> points[hook_of(a) as int] == HookPoint::AfterStep
            },
{
    let w = width(shape);
    let before = children_hooks(points, HookPoint::BeforeStep, node, w);
    let after = children_hooks(points, HookPoint::AfterStep, node, w);
    let body = seq![RunAction::Body { node }];
    lemma_children_hooks(points, HookPoint::BeforeStep, node, w);
    lemma_children_hooks(points, HookPoint::AfterStep, node, w);
    lemma_children_hooks_complete(points, HookPoint::BeforeStep, node, w);
    lemma_children_hooks_complete(points, HookPoint::AfterStep, node, w);
    let ns = node_schedule(points, node, shape);
    assert(ns == before + body + after);
    assert(body.no_duplicates());
    assert forall|i: int, j: int| #![trigger before[i], body[j]] 0 <= i < before.len() && 0 <= j
        < body.len() implies before[i] != body[j] by {
        assert(before[i] == hook_action(HookPoint::BeforeStep, node, child_of(before[i]), hook_of(before[i])));
    }
    lemma_concat_no_duplicates(before, body);
    let head = before + body;
    assert forall|i: int, j: int| #![trigger head[i], after[j]] 0 <= i < head.len() && 0 <= j
        < after.len() implies head[i] != after[j] by {
        assert(after[j] == hook_action(HookPoint::AfterStep, node, child_of(after[j]), hook_of(after[j])));
        if i < before.len() {
            assert(head[i] == before[i]);
            assert(before[i] == hook_action(HookPoint::BeforeStep, node, child_of(before[i]), hook_of(before[i])));
        } else {
            assert(head[i] == body[i - before.len()]);
        }
    }
    lemma_concat_no_duplicates(head, after);
    assert forall|c: usize, h: usize, point: HookPoint|
        c < w && h < points.len() && points[h as int] == point implies #[trigger] ns.contains(
        hook_action(point, node, c, h),
    ) by {
        let x = hook_action(point, node, c, h);
        match point {
            HookPoint::BeforeStep => {
                assert(before.contains(x));
                lemma_concat_contains(before, body, x);
                lemma_concat_contains(head, after, x);
            },
            HookPoint::AfterStep => {
                assert(after.contains(x));
                lemma_concat_contains(head, after, x);
            },
        }
    }
    assert forall|j: int| 0 <= j < ns.len() implies {
        let a = #[trigger] ns[j];
        &&& node_of(a) == node
        &&& !is_body(a) ==> child_of(a) < w && hook_of(a) < points.len()
        &&& is_before_hook(a) ==> points[hook_of(a) as int] == HookPoint::BeforeStep
        &&& is_after_hook(a) ==> points[hook_of(a) as int] == HookPoint::AfterStep
    } by {
        let b = before.len() as int;
        if j < b {
            assert(ns[j] == before[j]);
        } else if j == b {
            assert(ns[j] == body[0]);
        } else {
            assert(ns[j] == after[j - b - 1]);
        }
    }
}

/// Every step of every node gets every hook registered for it, exactly
/// once: for each node, each of its steps (all `children` of a parallel
/// block) and each hook registered at a point, the schedule holds that
/// hook's action for that step, and no action occurs twice. Conversely,
/// every hook action in the schedule is for one of its node's steps and a
/// hook registered at its point.
pub proof fn lemma_every_step_gets_every_hook(points: Seq<HookPoint>, shapes: Seq<NodeShape>)
    requires
        points.len() <= usize::MAX,
        shapes.len() <= usize::MAX,
    ensures
        schedule(points, shapes).no_duplicates(),
        forall|n: usize, c: usize, h: usize, point: HookPoint|
            n < shapes.len() && c < match shapes[n as int] {
                NodeShape::Step => 1nat,
                NodeShape::Parallel { children } => children as nat,
            } && h < points.len() && points[h as int]
                == point ==> #[trigger] schedule(points, shapes).contains(
                hook_action(point, n, c, h),
            ),
        forall|q: int|
            0 <= q < schedule(points, shapes).len() && !is_body(
                #[trigger] schedule(points, shapes)[q],
            ) ==> {
                let a = schedule(points, shapes)[q];
                &&& node_of(a) < shapes.len()
                &&& child_of(a) < match shapes[node_of(a) as int] {
                    NodeShape::Step => 1nat,
                    NodeShape::Parallel { children } => children as nat,
                }
                &&& hook_of(a) < points.len()
                &&& is_before_hook(a) ==> points[hook_of(a) as int] == HookPoint::BeforeStep
                &&& is_after_hook(a) ==> points[hook_of(a) as int] == HookPoint::AfterStep
            },
    decreases shapes.len(),
{
    if shapes.len() > 0 {
        let prefix = shapes.drop_last();
        let n = (shapes.len() - 1) as usize;
        let shape = shapes.last();
        lemma_every_step_gets_every_hook(points, prefix);
        lemma_schedule_order(points, prefix);
        lemma_node_schedule_complete(points, n, shape);
        let s0 = schedule(points, prefix);
        let ns = node_schedule(points, n, shape);
        let s = schedule(points, shapes);
        assert(s == s0 + ns);
        assert forall|i: int, j: int| #![trigger s0[i], ns[j]] 0 <= i < s0.len() && 0 <= j < ns.len()
            implies s0[i] != ns[j] by {
            assert(node_of(s0[i]) < n);
            assert(node_of(ns[j]) == n);
        }
        lemma_concat_no_duplicates(s0, ns);
        assert forall|m: usize, c: usize, h: usize, point: HookPoint|
            m < shapes.len() && c < match shapes[m as int] {
                NodeShape::Step => 1nat,
                NodeShape::Parallel { children } => children as nat,
            } && h < points.len() && points[h as int]
                == point implies #[trigger] s.contains(hook_action(point, m, c, h)) by {
            let x = hook_action(point, m, c, h);
            if m < n {
                assert(shapes[m as int] == prefix[m as int]);
                assert(s0.contains(x));
            } else {
                assert(ns.contains(x));
            }
            lemma_concat_contains(s0, ns, x);
        }
        assert forall|q: int| 0 <= q < s.len() && !is_body(#[trigger] s[q]) implies {
            let a = s[q];
            &&& node_of(a) < shapes.len()
            &&& child_of(a) < match shapes[node_of(a) as int] {
                    NodeShape::Step => 1nat,
                    NodeShape::Parallel { children } => children as nat,
                }
            &&& hook_of(a) < points.len()
            &&& is_before_hook(a) ==> points[hook_of(a) as int] == HookPoint::BeforeStep
            &&& is_after_hook(a) ==> points[hook_of(a) as int] == HookPoint::AfterStep
        } by {
            if q < s0.len() {
                assert(s[q] == s0[q]);
                assert(shapes[node_of(s0[q]) as int] == prefix[node_of(s0[q]) as int]);
            } else {
                assert(s[q] == ns[q - s0.len()]);
            }
        }
    }
}

/// After-step hooks of a node run only once its body has succeeded: when
/// the run asks for an after-step hook, the node's body is among the
/// actions already reported successful.
pub proof fn lemma_after_hooks_need_body(
    run: ScenarioRun,
    points: Seq<HookPoint>,
    shapes: Seq<NodeShape>,
)
    requires
        run.wf(),
        run.planned() == schedule(points, shapes),
        points.len() <= usize::MAX,
        shapes.len() <= usize::MAX,
        !run.has_failed(),
        run.succeeded() < run.planned().len(),
        is_after_hook(run.planned()[run.succeeded() as int]),
    ensures
        exists|p: int|
            0 <= p < run.succeeded() && is_body_of(
                run.planned()[p],
                node_of(run.planned()[run.succeeded() as int]),
            ),
{
    lemma_schedule_order(points, shapes);
    let q = run.succeeded() as int;
    assert(is_after_hook(schedule(points, shapes)[q]));
}

/// A failure ends the run: nothing more is performed, and the run reports
/// failure.
pub proof fn lemma_failure_stops(run: ScenarioRun)
    requires
        run.has_failed(),
    ensures
        run.next_spec() == (RunStep::Finished { success: false }),
{
}

/// A run succeeds only after every planned action has succeeded.
pub proof fn lemma_success_means_all_done(run: ScenarioRun)
    requires
        run.wf(),
        run.next_spec() == (RunStep::Finished { success: true }),
    ensures
        run.succeeded() == run.planned().len(),
        !run.has_failed(),
{
}

/// What the runner asks for next.
#[derive(Debug, Clone, Copy, PartialEq, Eq, Structural)]
pub enum RunStep {
    /// Perform this action and report whether it succeeded.
    Perform(RunAction),
    /// The run is over; `success` is false when an action failed.
    Finished { success: bool },
}

/// The decisions of a scenario run: the schedule, how much of it has
/// succeeded, and whether an action failed. The first failure ends the run.
pub struct ScenarioRun {
    actions: Vec<RunAction>,
    completed: usize,
    failed: bool,
}

impl ScenarioRun {
    /// The actions the run performs when all succeed.
    pub closed spec fn planned(self) -> Seq<RunAction> {
        self.actions@
    }

    /// Number of actions performed and reported successful.
    pub closed spec fn succeeded(self) -> nat {
        self.completed as nat
    }

    /// Whether an action has failed.
    pub closed spec fn has_failed(self) -> bool {
        self.failed
    }

    /// Well-formedness: no more actions succeeded than were planned.
    pub open spec fn wf(self) -> bool {
        self.succeeded() <= self.planned().len()
    }

    /// Every run is well formed.
    #[verifier::type_invariant]
    spec fn inv(self) -> bool {
        self.completed <= self.actions@.len()
    }

    /// What `next` returns in a state.
    pub open spec fn next_spec(self) -> RunStep {
        if self.has_failed() {
            RunStep::Finished { success: false }
        } else if self.succeeded() < self.planned().len() {
            RunStep::Perform(self.planned()[self.succeeded() as int])
        } else {
            RunStep::Finished { success: true }
        }
    }

    /// A run of the nodes `shapes` with hooks registered at `points` (in
    /// insertion order).
    pub fn new(points: &Vec<HookPoint>, shapes: &Vec<NodeShape>) -> (r: Self)
        ensures
            r.wf(),
            r.planned() == schedule(points@, shapes@),
            r.succeeded() == 0,
            !r.has_failed(),
    {
        ScenarioRun { actions: build_schedule(points, shapes), completed: 0, failed: false }
    }

    /// The next action, or the end of the run.
    pub fn next(&self) -> (r: RunStep)
        ensures
            r == self.next_spec(),
    {
        proof {
            use_type_invariant(self);
        }
        if self.failed {
            RunStep::Finished { success: false }
        } else if self.completed < self.actions.len() {
            RunStep::Perform(self.actions[self.completed])
        } else {
            RunStep::Finished { success: true }
        }
    }

    /// Record the outcome of the action that `next` asked for. Outside a
    /// pending action (after the end), nothing changes.
    pub fn report(&mut self, ok: bool)
        ensures
            final(self).wf(),
            final(self).planned() == old(self).planned(),
            old(self).next_spec() is Perform && ok ==> final(self).succeeded() == old(
                self,
            ).succeeded() + 1 && !final(self).has_failed(),
            old(self).next_spec() is Perform && !ok ==> final(self).succeeded() == old(
                self,
            ).succeeded() && final(self).has_failed(),
            old(self).next_spec() is Finished ==> *final(self) == *old(self),
    {
        proof {
            use_type_invariant(&*self);
        }
        if !self.failed && self.completed < self.actions.len() {
            if ok {
                self.completed = self.completed + 1;
            } else {
                self.failed = true;
            }
        }
    }
}

} // verus!
