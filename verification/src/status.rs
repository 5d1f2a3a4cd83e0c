//! What came of the steps: the counts shown while running, the value of each command, and the
//! collected result of a step.

use vstd::prelude::*;
use vstd::string::*;

use crate::context::Context;
use crate::text::{decimal_text, views};
#[allow(unused_imports)]
use crate::text::decimal;

verus! {

/// A construct to keep track of the status of the execution. It only cares about the top-level
/// steps.
pub struct Status {
    error: usize,
    ok: usize,
    remaining: usize,
}

/// The numbers that a [`Status`] holds.
#[verifier::ext_equal]
pub struct Counts {
    pub error: int,
    pub ok: int,
    pub remaining: int,
}

impl Counts {
    /// The counts once a step at `depth` has completed. Only a top-level step, at depth one, is
    /// counted: it leaves the remaining steps, and joins the failed or the passed ones.
    pub open spec fn after(self, depth: nat, step_has_error: bool) -> Counts {
        if depth != 1 {
            self
        } else if step_has_error {
            Counts { error: self.error + 1, ok: self.ok, remaining: self.remaining - 1 }
        } else {
            Counts { error: self.error, ok: self.ok + 1, remaining: self.remaining - 1 }
        }
    }

    /// The number of top-level steps, completed or not.
    pub open spec fn total(self) -> int {
        self.error + self.ok + self.remaining
    }

    /// `E:<error-count>,O:<ok-count>,R:<remaining-count>`, suitable for annotating the log lines.
    pub open spec fn text(self) -> Seq<char> {
        "E:"@ + decimal(self.error as nat) + ",O:"@ + decimal(self.ok as nat) + ",R:"@ + decimal(
            self.remaining as nat,
        )
    }
}

impl View for Status {
    type V = Counts;

    closed spec fn view(&self) -> Counts {
        Counts {
            error: self.error as int,
            ok: self.ok as int,
            remaining: self.remaining as int,
        }
    }
}

impl Status {
    #[verifier::type_invariant]
    spec fn total_is_bounded(self) -> bool {
        self.error + self.ok + self.remaining <= usize::MAX
    }

    /// The status before any of `remaining` top-level steps has run.
    pub fn new(remaining: usize) -> (status: Self)
        ensures
            status@ == (Counts { error: 0, ok: 0, remaining: remaining as int }),
    {
        Status { error: 0, ok: 0, remaining }
    }

    /// The number of top-level steps that have not completed yet.
    pub fn remaining(&self) -> (remaining: usize)
        ensures
            remaining == self@.remaining,
    {
        self.remaining
    }

    /// Guarantees that the `error`, `ok`, and `remaining` counts are updated only after the
    /// completions of each top-level step. A step that was skipped as a whole counts as passed.
    pub fn update(&mut self, context: &Context, step_has_error: bool)
        requires
            context.prefix@.len() == 1 ==> old(self)@.remaining > 0,
        ensures
            final(self)@ == old(self)@.after(context.prefix@.len(), step_has_error),
            final(self)@.total() == old(self)@.total(),
    {
        proof {
            use_type_invariant(&*self);
        }
        if context.depth() == 1 {
            self.remaining = self.remaining - 1;
            if step_has_error {
                self.error = self.error + 1;
            } else {
                self.ok = self.ok + 1;
            }
        }
    }

    /// The counts as `E:<error-count>,O:<ok-count>,R:<remaining-count>`.
    pub fn to_string(&self) -> (text: String)
        ensures
            text@ == self@.text(),
    {
        let mut text = "E:".to_owned();
        text.append(decimal_text(self.error as u64).as_str());
        text.append(",O:");
        text.append(decimal_text(self.ok as u64).as_str());
        text.append(",R:");
        text.append(decimal_text(self.remaining as u64).as_str());
        text
    }
}

impl Clone for Status {
    fn clone(&self) -> (copy: Self)
        ensures
            copy@ == self@,
    {
        proof {
            use_type_invariant(self);
        }
        Status { error: self.error, ok: self.ok, remaining: self.remaining }
    }
}

/// The outcome of an individual step of execution.
#[derive(PartialEq, Eq, Clone, Copy, Hash, Debug, Structural)]
pub enum StatusResultValue {
    Passed,
    Error,
    Skipped,
}

/// The value of one command, with the logs that it left.
pub struct SingleStatusResult {
    pub value: StatusResultValue,
    pub logs: String,
}

impl Clone for SingleStatusResult {
    fn clone(&self) -> (copy: Self)
        ensures
            copy == *self,
    {
        SingleStatusResult { value: self.value, logs: self.logs.clone() }
    }
}

/// The status results of the commands of a step, each value once in the order of first
/// occurrence, and the contexts of the steps worth a second look.
pub struct StepResult {
    pub values: Vec<StatusResultValue>,
    pub failed_steps_prefixes: Vec<String>,
}

/// The contents of a [`StepResult`].
#[verifier::ext_equal]
pub struct Collected {
    pub values: Seq<StatusResultValue>,
    pub failed: Seq<Seq<char>>,
}

/// `values`, with `value` added at the end unless it is there already.
pub open spec fn with_value(
    values: Seq<StatusResultValue>,
    value: StatusResultValue,
) -> Seq<StatusResultValue> {
    if values.contains(value) {
        values
    } else {
        values.push(value)
    }
}

/// `values`, with each of `more` added in turn.
pub open spec fn with_values(
    values: Seq<StatusResultValue>,
    more: Seq<StatusResultValue>,
) -> Seq<StatusResultValue>
    decreases more.len(),
{
    if more.len() == 0 {
        values
    } else {
        with_value(with_values(values, more.drop_last()), more.last())
    }
}

impl Collected {
    /// Nothing collected yet.
    pub open spec fn empty() -> Collected {
        Collected { values: Seq::empty(), failed: Seq::empty() }
    }

    /// With the value of one more command.
    pub open spec fn insert(self, value: StatusResultValue) -> Collected {
        Collected { values: with_value(self.values, value), failed: self.failed }
    }

    /// With one more context recorded.
    pub open spec fn record(self, context: Seq<char>) -> Collected {
        Collected { values: self.values, failed: self.failed.push(context) }
    }

    /// With all that a sub-step collected.
    pub open spec fn absorb(self, sub: Collected) -> Collected {
        Collected {
            values: with_values(self.values, sub.values),
            failed: self.failed + sub.failed,
        }
    }

    /// Whether some command failed.
    pub open spec fn has_error(self) -> bool {
        self.values.contains(StatusResultValue::Error)
    }
}

impl View for StepResult {
    type V = Collected;

    open spec fn view(&self) -> Collected {
        Collected { values: self.values@, failed: views(self.failed_steps_prefixes@) }
    }
}

impl StepResult {
    /// No value occurs twice.
    pub open spec fn wf(self) -> bool {
        self.values@.no_duplicates()
    }

    /// A result to which no command has contributed.
    pub fn new() -> (result: Self)
        ensures
            result@ == Collected::empty(),
            result.wf(),
    {
        let result = StepResult { values: Vec::new(), failed_steps_prefixes: Vec::new() };
        assert(result@ == Collected::empty());
        result
    }

    /// Whether the value is among the collected ones.
    pub fn contains(&self, value: StatusResultValue) -> (found: bool)
        ensures
            found == self@.values.contains(value),
    {
        for i in 0..self.values.len()
            invariant
                forall|j: int| 0 <= j < i ==> self.values@[j] != value,
        {
            if self.values[i] == value {
                return true;
            }
        }
        false
    }

    /// Adds the value of a command.
    pub fn insert(&mut self, value: StatusResultValue)
        requires
            old(self).wf(),
        ensures
            final(self)@ == old(self)@.insert(value),
            final(self).wf(),
    {
        if !self.contains(value) {
            self.values.push(value);
        }
    }

    /// Records a context.
    pub fn record(&mut self, context: String)
        requires
            old(self).wf(),
        ensures
            final(self)@ == old(self)@.record(context@),
            final(self).wf(),
    {
        self.failed_steps_prefixes.push(context);
        assert(self@ == old(self)@.record(context@));
    }

    /// Takes over all that a sub-step collected.
    pub fn absorb(&mut self, sub: StepResult)
        requires
            old(self).wf(),
        ensures
            final(self)@ == old(self)@.absorb(sub@),
            final(self).wf(),
    {
        let StepResult { values, mut failed_steps_prefixes } = sub;
        for i in 0..values.len()
            invariant
                self.wf(),
                self@.values == with_values(old(self)@.values, values@.take(i as int)),
                self@.failed == old(self)@.failed,
        {
            self.insert(values[i]);
            assert(values@.take(i + 1).drop_last() == values@.take(i as int));
        }
        assert(values@.take(values@.len() as int) == values@);
        self.failed_steps_prefixes.append(&mut failed_steps_prefixes);
        assert(self@.failed =~= old(self)@.failed + sub@.failed);
    }
}

/// The result of a step keeps all that it held and all that it takes over, in order: the contexts
/// as often as they occur, and every value once.
pub proof fn results_keep_everything(
    result: Collected,
    sub: Collected,
    value: StatusResultValue,
    context: Seq<char>,
)
    requires
        result.values.no_duplicates(),
    ensures
        result.absorb(sub).failed == result.failed + sub.failed,
        result.insert(value).failed == result.failed,
        result.record(context).failed == result.failed + seq![context],
        result.record(context).values == result.values,
        forall|other: StatusResultValue| #[trigger]
            result.absorb(sub).values.contains(other) == (result.values.contains(other)
                || sub.values.contains(other)),
        forall|other: StatusResultValue| #[trigger]
            result.insert(value).values.contains(other) == (result.values.contains(other) || other
                == value),
        result.absorb(sub).values.no_duplicates(),
        result.insert(value).values.no_duplicates(),
{
    crate::laws::values::lemma_with_values(result.values, sub.values);
    crate::laws::values::lemma_with_value(result.values, value);
    assert(result.record(context).failed =~= result.failed + seq![context]);
}

/// A completed step moves from the remaining ones to the failed ones or to the passed ones if it is
/// a top-level one, and is not counted otherwise.
pub proof fn completions_are_counted(counts: Counts, depth: nat, failed: bool)
    ensures
        depth != 1 ==> counts.after(depth, failed) == counts,
        depth == 1 ==> counts.after(depth, failed).remaining == counts.remaining - 1,
        depth == 1 && failed ==> counts.after(depth, failed).error == counts.error + 1,
        depth == 1 && failed ==> counts.after(depth, failed).ok == counts.ok,
        depth == 1 && !failed ==> counts.after(depth, failed).error == counts.error,
        depth == 1 && !failed ==> counts.after(depth, failed).ok == counts.ok + 1,
{
}

} // verus!
