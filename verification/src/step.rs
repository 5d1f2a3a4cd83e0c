//! The tree of steps that a run goes through.

use vstd::prelude::*;

verus! {

/// A task that can be run.
pub trait Runnable {
    /// What [`Runnable::description`] returns.
    spec fn described(&self) -> Seq<char>;

    /// Returns a description of the task, e.g. the command line arguments that are part of it.
    fn description(&self) -> (text: String)
        ensures
            text@ == self.described(),
    ;
}

/// A task of any kind, together with its description.
pub struct Task<T> {
    pub description: String,
    pub task: T,
}

impl<T> Runnable for Task<T> {
    open spec fn described(&self) -> Seq<char> {
        self.description@
    }

    /// The description that the task comes with.
    fn description(&self) -> (text: String) {
        self.description.clone()
    }
}

/// An execution step, which may be a single command, or a collection of sub-steps.
pub enum Step<C> {
    Single { name: String, command: C },
    Multiple { name: String, steps: Vec<Step<C>> },
    WithBackground { name: String, background: C, foreground: Box<Step<C>> },
}

impl<C> Step<C> {
    /// The number of top-level steps or commands.
    pub open spec fn top_level(self) -> nat
        decreases self,
    {
        match self {
            Step::Single { .. } => 1,
            Step::Multiple { steps, .. } => steps@.len(),
            Step::WithBackground { foreground, .. } => foreground.top_level(),
        }
    }

    /// How often a run of the step, placed outside of all others, completes a top-level step: once
    /// for each sub-step of a collection, once in all for any other step.
    pub open spec fn completions(self) -> nat {
        match self {
            Step::Multiple { steps, .. } => steps@.len(),
            _ => 1,
        }
    }

    /// Returns the number of top-level steps or commands. The number of sub-steps is not
    /// recursively accumulated in the returned length.
    pub fn len(&self) -> (len: usize)
        ensures
            len == self.top_level(),
        decreases self,
    {
        match self {
            Step::Single { .. } => 1,
            Step::Multiple { name: _, steps } => steps.len(),
            Step::WithBackground { name: _, background: _, foreground } => foreground.len(),
        }
    }
}

/// The length of a step is not that of its sub-steps, and that of a step with a background command
/// is that of its foreground step.
pub proof fn lengths_are_of_the_top_level<C>(
    name: String,
    command: C,
    steps: Vec<Step<C>>,
    foreground: Box<Step<C>>,
)
    ensures
        (Step::Single { name, command }).top_level() == 1,
        (Step::Multiple { name, steps }).top_level() == steps@.len(),
        (Step::WithBackground { name, background: command, foreground }).top_level()
            == foreground.top_level(),
        (Step::Single { name, command }).completions() == 1,
        (Step::Multiple { name, steps }).completions() == steps@.len(),
        (Step::WithBackground { name, background: command, foreground }).completions() == 1,
{
}

} // verus!
