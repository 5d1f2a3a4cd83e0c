//! What becomes of the background commands of a run.

use vstd::prelude::*;

use crate::step::{Runnable, Step};
use crate::trace::Event;
#[allow(unused_imports)]
use crate::context::Place;
#[allow(unused_imports)]
use crate::laws::order::{opening_entry, whole_collection};
#[allow(unused_imports)]
use crate::status::{Collected, Counts};
#[allow(unused_imports)]
use crate::trace::{
    background_opening, background_stop, entry_time, run_foreground, run_one, run_steps,
    sequence_end, single_end, single_opening, Deed, Item, Progress,
};

verus! {

/// What is done to a background command.
pub enum Phase {
    Start,
    Stop,
    Await,
}

/// Whether an entry asks for something to be done to a background command.
pub open spec fn asks_for<C>(item: Item<C>, phase: Phase) -> bool {
    match phase {
        Phase::Start => item matches Item::Do(deed) && deed is Start,
        Phase::Stop => item matches Item::Do(deed) && deed is Stop,
        Phase::Await => item matches Item::Do(deed) && deed is Await,
    }
}

/// How often something is done to background commands.
pub open spec fn times<C>(trace: Seq<Item<C>>, phase: Phase) -> nat
    decreases trace.len(),
{
    if trace.len() == 0 {
        0
    } else {
        times(trace.drop_last(), phase) + if asks_for(trace.last(), phase) {
            1nat
        } else {
            0
        }
    }
}

/// Every background command that is started is stopped, and its end is waited for.
pub open spec fn balanced<C>(trace: Seq<Item<C>>) -> bool {
    times(trace, Phase::Start) == times(trace, Phase::Stop) == times(trace, Phase::Await)
}

/// No more background commands are stopped than were started, and the end of no more of them is
/// waited for than were stopped.
pub open spec fn at_most_balanced<C>(trace: Seq<Item<C>>) -> bool {
    times(trace, Phase::Start) >= times(trace, Phase::Stop) >= times(trace, Phase::Await)
}

/// Occurrences are counted across two parts of a trace.
proof fn lemma_times<C>(first: Seq<Item<C>>, second: Seq<Item<C>>, phase: Phase)
    ensures
        times(first + second, phase) == times(first, phase) + times(second, phase),
    decreases second.len(),
{
    if second.len() == 0 {
        assert(first + second =~= first);
    } else {
        assert((first + second).drop_last() =~= first + second.drop_last());
        lemma_times(first, second.drop_last(), phase);
    }
}

/// Occurrences are counted across two parts of a trace, whatever is done.
proof fn lemma_all_times<C>(first: Seq<Item<C>>, second: Seq<Item<C>>)
    ensures
        forall|phase: Phase| #[trigger]
            times(first + second, phase) == times(first, phase) + times(second, phase),
{
    assert forall|phase: Phase| #[trigger]
        times(first + second, phase) == times(first, phase) + times(second, phase) by {
        lemma_times(first, second, phase);
    }
}

/// Where no entry asks for it, nothing is done to background commands.
proof fn lemma_untouched<C>(trace: Seq<Item<C>>, phase: Phase)
    requires
        forall|i: int| 0 <= i < trace.len() ==> !asks_for(#[trigger] trace[i], phase),
    ensures
        times(trace, phase) == 0,
    decreases trace.len(),
{
    if trace.len() > 0 {
        assert(!asks_for(trace[trace.len() - 1], phase));
        lemma_untouched(trace.drop_last(), phase);
    }
}

/// Where no entry asks for anything to be done to background commands, nothing is.
proof fn lemma_all_untouched<C>(trace: Seq<Item<C>>)
    requires
        forall|i: int, phase: Phase|
            0 <= i < trace.len() ==> !#[trigger] asks_for(trace[i], phase),
    ensures
        forall|phase: Phase| #[trigger] times(trace, phase) == 0,
{
    assert forall|phase: Phase| #[trigger] times(trace, phase) == 0 by {
        lemma_untouched(trace, phase);
    }
}

/// One entry.
proof fn lemma_one<C>(item: Item<C>)
    ensures
        forall|phase: Phase| #[trigger]
            times(seq![item], phase) == if asks_for(item, phase) {
                1nat
            } else {
                0
            },
{
    let one = seq![item];
    assert(one.drop_last() =~= Seq::empty());
    assert forall|phase: Phase| #[trigger]
        times(one, phase) == if asks_for(item, phase) {
            1nat
        } else {
            0
        } by {
        assert(times(one.drop_last(), phase) == 0);
    }
}

/// Whether a run that has come to its end is balanced, and one that has not at most so.
spec fn leaves_none<C, T>(run: Progress<C, T>) -> bool {
    &&& at_most_balanced(run.trace)
    &&& run.end is Some ==> balanced(run.trace)
}

/// The end of a background command.
proof fn lemma_stopped<C>(
    here: Place,
    time: Seq<char>,
    counts: Counts,
    foreground: Collected,
    events: Seq<Event>,
)
    ensures
        ({
            let run = background_stop::<C>(here, time, counts, foreground, events);
            &&& times(run.trace, Phase::Start) == 0
            &&& times(run.trace, Phase::Stop) == 0
            &&& times(run.trace, Phase::Await) <= 1
            &&& run.end is Some ==> times(run.trace, Phase::Await) == 1
        }),
{
    let run = background_stop::<C>(here, time, counts, foreground, events);
    if run.trace.len() > 0 {
        let await_it = run.trace.take(2);
        let rest = run.trace.skip(2);
        assert(await_it + rest =~= run.trace);
        assert(await_it =~= seq![run.trace[0]] + seq![run.trace[1]]);
        lemma_one(run.trace[0]);
        lemma_one(run.trace[1]);
        lemma_all_times(seq![run.trace[0]], seq![run.trace[1]]);
        lemma_all_untouched(rest);
        lemma_all_times(await_it, rest);
    }
}

/// The background commands of a run of a step.
proof fn lemma_leaves_none<C: Runnable>(
    place: Place,
    step: Step<C>,
    counts: Counts,
    events: Seq<Event>,
)
    ensures
        leaves_none(run_one(place, step, counts, events)),
    decreases step, 0nat,
{
    if events.len() > 0 {
        if let Event::Clock { timestamp, nanos } = events[0] {
            let time = entry_time(timestamp);
            let entered = events.drop_first();
            match step {
                Step::Single { .. } => {
                    lemma_all_untouched(run_one(place, step, counts, events).trace);
                },
                Step::Multiple { name, steps } => {
                    let here = place.child(name@);
                    let run = run_steps(here, steps@, counts, Collected::empty(), entered);
                    lemma_steps_leave_none(here, steps@, counts, Collected::empty(), entered);
                    lemma_closed_leaves_none(here, time, nanos, counts, run);
                },
                Step::WithBackground { name, background, foreground } => {
                    let here = place.child(name@);
                    let opening = background_opening(here, time, counts, background);
                    let run = run_foreground(here, time, counts, *foreground, entered);
                    assert(opening =~= opening.take(2) + seq![opening[2]]);
                    lemma_all_untouched(opening.take(2));
                    lemma_one(opening[2]);
                    lemma_all_times(opening.take(2), seq![opening[2]]);
                    lemma_all_times(opening, run.trace);
                    if entered.len() > 0 && entered[0] is Started {
                        let inner = run_one(here, *foreground, counts, entered.drop_first());
                        let read = seq![Item::<C>::Do(Deed::ReadClock)];
                        let stop = seq![Item::<C>::Do(Deed::Stop)];
                        lemma_leaves_none(here, *foreground, counts, entered.drop_first());
                        lemma_one(read[0]);
                        lemma_one(stop[0]);
                        lemma_all_times(read, inner.trace);
                        if let Some((collected, rest)) = inner.end {
                            let end = background_stop::<C>(here, time, counts, collected, rest);
                            lemma_stopped::<C>(here, time, counts, collected, rest);
                            lemma_all_times(read + inner.trace, stop);
                            lemma_all_times(read + inner.trace + stop, end.trace);
                        }
                    }
                },
            }
        }
    }
}

/// The background commands of a collection of steps are those of its steps.
proof fn lemma_closed_leaves_none<C>(
    here: Place,
    time: Seq<char>,
    started: u64,
    counts: Counts,
    run: Progress<C, (Collected, Counts)>,
)
    requires
        leaves_none(run),
    ensures
        leaves_none(whole_collection(here, time, started, counts, run)),
{
    let open = seq![opening_entry::<C>(here, time, counts)];
    lemma_one(open[0]);
    lemma_all_times(open, run.trace);
    if let Some(((collected, counts2), rest)) = run.end {
        let read = seq![Item::<C>::Do(Deed::ReadClock)];
        let end = sequence_end::<C>(here, time, started, counts2, collected, rest).trace;
        lemma_one(read[0]);
        lemma_all_untouched(end);
        lemma_all_times(open + run.trace, read);
        lemma_all_times(open + run.trace + read, end);
    }
}

/// The background commands of a run of several steps.
proof fn lemma_steps_leave_none<C: Runnable>(
    here: Place,
    steps: Seq<Step<C>>,
    counts: Counts,
    collected: Collected,
    events: Seq<Event>,
)
    ensures
        leaves_none(run_steps(here, steps, counts, collected, events)),
    decreases steps, 0nat,
{
    if steps.len() > 0 {
        let run = run_one(here, steps[0], counts, events);
        let read = seq![Item::<C>::Do(Deed::ReadClock)];
        lemma_leaves_none(here, steps[0], counts, events);
        lemma_one(read[0]);
        lemma_all_times(read, run.trace);
        if let Some((sub, rest)) = run.end {
            if !(sub.has_error() && !here.flags.keep_going) {
                let counts2 = counts.after(here.prefix.len(), sub.has_error());
                let collected2 = collected.absorb(sub);
                let others = run_steps(here, steps.drop_first(), counts2, collected2, rest);
                lemma_steps_leave_none(here, steps.drop_first(), counts2, collected2, rest);
                lemma_all_times(read + run.trace, others.trace);
            }
        }
    }
}

/// A run that comes to its end, with or without errors, has stopped every background command that
/// it has started, and has waited for the end of each of them.
pub proof fn background_commands_are_stopped<C: Runnable>(
    place: Place,
    step: Step<C>,
    counts: Counts,
    events: Seq<Event>,
)
    ensures
        ({
            let run = run_one(place, step, counts, events);
            &&& at_most_balanced(run.trace)
            &&& run.end is Some ==> balanced(run.trace)
        }),
{
    lemma_leaves_none(place, step, counts, events);
}

} // verus!
