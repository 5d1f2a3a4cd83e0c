//! How long a run can take.

use vstd::prelude::*;

use crate::step::{Runnable, Step};
use crate::trace::Event;
#[allow(unused_imports)]
use crate::context::Place;
#[allow(unused_imports)]
use crate::laws::order::{opening_entry, whole_collection};
#[allow(unused_imports)]
use crate::status::{Collected, Counts};
#[allow(unused_imports)]
use crate::trace::{
    background_opening, background_stop, entry_time, run_foreground, run_one, run_steps,
    sequence_end, single_end, single_opening, trace, Deed, Item, Progress,
};

verus! {

/// How often something is asked for.
pub open spec fn requests<C>(trace: Seq<Item<C>>) -> nat
    decreases trace.len(),
{
    if trace.len() == 0 {
        0
    } else {
        requests(trace.drop_last()) + if trace.last() is Do {
            1nat
        } else {
            0
        }
    }
}

/// How often something is asked for in a run of a step, once it was entered, if none of its
/// commands is left out.
pub open spec fn step_requests<C>(step: Step<C>) -> nat
    decreases step, 0nat,
{
    match step {
        Step::Single { .. } => 1,
        Step::Multiple { steps, .. } => steps_requests(steps@) + 1,
        Step::WithBackground { foreground, .. } => step_requests(*foreground) + 4,
    }
}

/// How often something is asked for in a run of several steps, if none of their commands is left
/// out.
pub open spec fn steps_requests<C>(steps: Seq<Step<C>>) -> nat
    decreases steps, 0nat,
{
    if steps.len() == 0 {
        0
    } else {
        step_requests(steps[0]) + 1 + steps_requests(steps.drop_first())
    }
}

/// Requests are counted across two parts of a trace.
proof fn lemma_requests<C>(first: Seq<Item<C>>, second: Seq<Item<C>>)
    ensures
        requests(first + second) == requests(first) + requests(second),
    decreases second.len(),
{
    if second.len() == 0 {
        assert(first + second =~= first);
    } else {
        assert((first + second).drop_last() =~= first + second.drop_last());
        lemma_requests(first, second.drop_last());
    }
}

/// Where messages are shown only, nothing is asked for.
proof fn lemma_no_requests<C>(trace: Seq<Item<C>>)
    requires
        forall|i: int| 0 <= i < trace.len() ==> (#[trigger] trace[i]) is Show,
    ensures
        requests(trace) == 0,
    decreases trace.len(),
{
    if trace.len() > 0 {
        assert(trace[trace.len() - 1] is Show);
        lemma_no_requests(trace.drop_last());
    }
}

/// One request.
proof fn lemma_one_request<C>(deed: Deed<C>)
    ensures
        requests(seq![Item::Do(deed)]) == 1,
{
    let one = seq![Item::Do(deed)];
    assert(one.drop_last() =~= Seq::empty());
    assert(requests(one.drop_last()) == 0);
}

/// The requests at the end of a background command.
proof fn lemma_stop_requests<C>(
    here: Place,
    time: Seq<char>,
    counts: Counts,
    foreground: Collected,
    events: Seq<Event>,
)
    ensures
        requests(background_stop::<C>(here, time, counts, foreground, events).trace) <= 1,
{
    let trace = background_stop::<C>(here, time, counts, foreground, events).trace;
    if trace.len() > 0 {
        assert(trace =~= seq![trace[0]] + seq![trace[1]] + trace.skip(2));
        lemma_requests(seq![trace[0]] + seq![trace[1]], trace.skip(2));
        lemma_requests(seq![trace[0]], seq![trace[1]]);
        lemma_no_requests(seq![trace[0]]);
        lemma_one_request::<C>(Deed::Await);
        lemma_no_requests(trace.skip(2));
    }
}

/// The requests of a run of a step.
proof fn lemma_step_requests<C: Runnable>(
    place: Place,
    step: Step<C>,
    counts: Counts,
    events: Seq<Event>,
)
    ensures
        requests(run_one(place, step, counts, events).trace) <= step_requests(step),
    decreases step, 0nat,
{
    if events.len() > 0 {
        if let Event::Clock { timestamp, nanos } = events[0] {
            let time = entry_time(timestamp);
            let entered = events.drop_first();
            match step {
                Step::Single { name, command } => {
                    let here = place.child(name@);
                    let opening = single_opening(here, time, counts, command);
                    let run = seq![Item::<C>::Do(Deed::Run { command })];
                    let end = single_end::<C>(here, nanos, entered).trace;
                    lemma_no_requests(opening);
                    lemma_one_request(Deed::Run { command });
                    lemma_no_requests(end);
                    lemma_requests(opening, run);
                    lemma_requests(opening + run, end);
                },
                Step::Multiple { name, steps } => {
                    let here = place.child(name@);
                    let run = run_steps(here, steps@, counts, Collected::empty(), entered);
                    lemma_steps_requests(here, steps@, counts, Collected::empty(), entered);
                    lemma_collection_requests(here, time, nanos, counts, run);
                },
                Step::WithBackground { name, background, foreground } => {
                    let here = place.child(name@);
                    let opening = background_opening(here, time, counts, background);
                    let run = run_foreground(here, time, counts, *foreground, entered);
                    assert(opening =~= opening.take(2) + seq![opening[2]]);
                    lemma_requests(opening.take(2), seq![opening[2]]);
                    lemma_no_requests(opening.take(2));
                    lemma_one_request(
                        Deed::Start {
                            command: background,
                            settle_millis: crate::trace::SETTLE_MILLIS,
                        },
                    );
                    lemma_requests(opening, run.trace);
                    lemma_foreground_requests(here, time, counts, *foreground, entered);
                    if entered.len() > 0 {
                        lemma_step_requests(here, *foreground, counts, entered.drop_first());
                    }
                },
            }
        }
    }
}

/// The requests of a step with a background command, after the start of that.
proof fn lemma_foreground_requests<C: Runnable>(
    here: Place,
    time: Seq<char>,
    counts: Counts,
    foreground: Step<C>,
    events: Seq<Event>,
)
    ensures
        requests(run_foreground(here, time, counts, foreground, events).trace) <= if events.len()
            == 0 {
            0
        } else {
            requests(run_one(here, foreground, counts, events.drop_first()).trace) + 3
        },
{
    if events.len() > 0 && events[0] is Started {
        let run = run_one(here, foreground, counts, events.drop_first());
        let read = seq![Item::<C>::Do(Deed::ReadClock)];
        let stop = seq![Item::<C>::Do(Deed::Stop)];
        lemma_one_request::<C>(Deed::ReadClock);
        lemma_one_request::<C>(Deed::Stop);
        lemma_requests(read, run.trace);
        if let Some((collected, rest)) = run.end {
            let end = background_stop::<C>(here, time, counts, collected, rest).trace;
            lemma_requests(read + run.trace, stop);
            lemma_requests(read + run.trace + stop, end);
            lemma_stop_requests::<C>(here, time, counts, collected, rest);
        }
    }
}

/// The requests of a collection of steps, of which the steps have come as far as `run`.
proof fn lemma_collection_requests<C>(
    here: Place,
    time: Seq<char>,
    started: u64,
    counts: Counts,
    run: Progress<C, (Collected, Counts)>,
)
    ensures
        requests(whole_collection(here, time, started, counts, run).trace) <= requests(run.trace)
            + 1,
{
    let open = seq![opening_entry::<C>(here, time, counts)];
    lemma_no_requests(open);
    lemma_requests(open, run.trace);
    if let Some(((collected, counts2), rest)) = run.end {
        let read = seq![Item::<C>::Do(Deed::ReadClock)];
        let end = sequence_end::<C>(here, time, started, counts2, collected, rest).trace;
        lemma_one_request::<C>(Deed::ReadClock);
        lemma_no_requests(end);
        lemma_requests(open + run.trace, read);
        lemma_requests(open + run.trace + read, end);
    }
}

/// The requests of a run of several steps.
proof fn lemma_steps_requests<C: Runnable>(
    here: Place,
    steps: Seq<Step<C>>,
    counts: Counts,
    collected: Collected,
    events: Seq<Event>,
)
    ensures
        requests(run_steps(here, steps, counts, collected, events).trace) <= steps_requests(steps),
    decreases steps, 0nat,
{
    if steps.len() > 0 {
        let run = run_one(here, steps[0], counts, events);
        let read = seq![Item::<C>::Do(Deed::ReadClock)];
        lemma_step_requests(here, steps[0], counts, events);
        lemma_one_request::<C>(Deed::ReadClock);
        lemma_requests(read, run.trace);
        if let Some((sub, rest)) = run.end {
            if !(sub.has_error() && !here.flags.keep_going) {
                let counts2 = counts.after(here.prefix.len(), sub.has_error());
                let collected2 = collected.absorb(sub);
                let others = run_steps(here, steps.drop_first(), counts2, collected2, rest);
                lemma_steps_requests(here, steps.drop_first(), counts2, collected2, rest);
                lemma_requests(read + run.trace, others.trace);
            }
        }
    }
}

/// A run comes to its end: however many events there are, it does not ask for more than its step
/// gives rise to, and then tells that it is done.
pub proof fn runs_come_to_an_end<C: Runnable>(
    place: Place,
    step: Step<C>,
    counts: Counts,
    events: Seq<Event>,
)
    ensures
        requests(trace(place, step, counts, events)) <= step_requests(step) + 1,
{
    lemma_step_requests(place, step, counts, events);
    let run = run_one(place, step, counts, events);
    if let Some((result, _)) = run.end {
        lemma_one_request::<C>(Deed::Done { result });
        lemma_requests(run.trace, seq![Item::<C>::Do(Deed::Done { result })]);
    }
}

} // verus!
