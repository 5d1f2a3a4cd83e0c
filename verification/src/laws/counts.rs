//! The counts of a run.

use vstd::prelude::*;

use crate::step::{Runnable, Step};
use crate::trace::Event;
#[allow(unused_imports)]
use crate::context::Place;
#[allow(unused_imports)]
use crate::laws::values::lemma_with_values;
#[allow(unused_imports)]
use crate::status::{Collected, Counts};
#[allow(unused_imports)]
use crate::trace::{run_one, run_steps};

verus! {

/// Completions move steps from the remaining ones to the passed or the failed ones, so that their
/// total stays the same; the remaining ones do not grow, and neither do the others shrink.
pub open spec fn moves_on(counts: Counts, later: Counts) -> bool {
    &&& later.total() == counts.total()
    &&& later.remaining <= counts.remaining
    &&& later.ok >= counts.ok
    &&& later.error >= counts.error
}

/// The counts move on with the steps of a collection. Steps that are not top-level ones are not
/// counted. Of the top-level ones, all have been counted once the collection has come to its end
/// without an error, or is to be continued after errors; and a failed one is counted only if there
/// was an error.
pub proof fn top_level_steps_are_counted<C: Runnable>(
    here: Place,
    steps: Seq<Step<C>>,
    counts: Counts,
    collected: Collected,
    events: Seq<Event>,
)
    ensures
        run_steps(here, steps, counts, collected, events).end matches Some(((all, later), _)) ==> {
            &&& moves_on(counts, later)
            &&& here.prefix.len() != 1 ==> later == counts
            &&& here.prefix.len() == 1 && (here.flags.keep_going || !all.has_error())
                ==> later.remaining == counts.remaining - steps.len()
            &&& later.error > counts.error ==> all.has_error()
            &&& !here.flags.keep_going ==> later.error <= counts.error + 1
            &&& collected.has_error() ==> all.has_error()
        },
    decreases steps, 0nat,
{
    if steps.len() > 0 {
        if let Some((sub, rest)) = run_one(here, steps[0], counts, events).end {
            let counts2 = counts.after(here.prefix.len(), sub.has_error());
            let collected2 = collected.absorb(sub);
            lemma_with_values(collected.values, sub.values);
            if !(sub.has_error() && !here.flags.keep_going) {
                top_level_steps_are_counted(here, steps.drop_first(), counts2, collected2, rest);
            }
        }
    }
}

} // verus!
