use vstd::prelude::*;

verus! {

/// Points in a step's lifecycle at which a hook can run.
#[derive(Debug, Clone, Copy, PartialEq, Eq, Structural)]
pub enum HookPoint {
    BeforeStep,
    AfterStep,
}

/// Lightweight metadata about the step surrounding a hook invocation.
pub struct StepInfo<'a> {
    pub name: &'a str,
}

} // verus!
