//! What more events do to a run.

use vstd::prelude::*;

use crate::step::{Runnable, Step};
use crate::trace::Event;
#[allow(unused_imports)]
use crate::context::Place;
#[allow(unused_imports)]
use crate::laws::order::{
    lemma_prefix_after, lemma_prefix_of_more, opening_entry, whole_collection,
};
#[allow(unused_imports)]
use crate::status::{Collected, Counts};
#[allow(unused_imports)]
use crate::trace::{
    background_opening, background_stop, entry_time, run_foreground, run_one, run_steps,
    sequence_end, single_end, single_opening, trace, Deed, Item, Progress,
};

verus! {

/// Whether a run that has come as far as `run` goes on to `longer` when there are more events.
pub open spec fn grows<C, T>(
    run: Progress<C, T>,
    longer: Progress<C, T>,
    more: Seq<Event>,
) -> bool {
    match run.end {
        Some((result, rest)) => {
            &&& longer.trace == run.trace
            &&& longer.end == Some((result, rest + more))
        },
        None => run.trace.is_prefix_of(longer.trace),
    }
}

/// The first event is the same when there are more of them.
pub(crate) proof fn lemma_first_of_more(events: Seq<Event>, more: Seq<Event>)
    requires
        events.len() > 0,
    ensures
        (events + more)[0] == events[0],
        (events + more).drop_first() == events.drop_first() + more,
{
    assert((events + more).drop_first() =~= events.drop_first() + more);
}

/// What goes on still does so after other entries.
proof fn lemma_grows_after<C, T>(
    run: Progress<C, T>,
    longer: Progress<C, T>,
    more: Seq<Event>,
    items: Seq<Item<C>>,
)
    requires
        grows(run, longer, more),
    ensures
        grows(run.after(items), longer.after(items), more),
{
    if run.end is None {
        lemma_prefix_after(items, run.trace, longer.trace);
    }
}

/// The ends of commands and collections, when there are more events.
proof fn lemma_ends_grow<C>(
    here: Place,
    time: Seq<char>,
    started: u64,
    counts: Counts,
    collected: Collected,
    events: Seq<Event>,
    more: Seq<Event>,
)
    ensures
        grows(
            single_end::<C>(here, started, events),
            single_end::<C>(here, started, events + more),
            more,
        ),
        grows(
            sequence_end::<C>(here, time, started, counts, collected, events),
            sequence_end::<C>(here, time, started, counts, collected, events + more),
            more,
        ),
{
    if events.len() > 0 {
        lemma_first_of_more(events, more);
    }
}

/// The end of a background command, when there are more events.
proof fn lemma_background_grows<C>(
    here: Place,
    time: Seq<char>,
    counts: Counts,
    foreground: Collected,
    events: Seq<Event>,
    more: Seq<Event>,
)
    ensures
        grows(
            background_stop::<C>(here, time, counts, foreground, events),
            background_stop::<C>(here, time, counts, foreground, events + more),
            more,
        ),
{
    if events.len() > 0 {
        lemma_first_of_more(events, more);
        if events.drop_first().len() > 0 {
            lemma_first_of_more(events.drop_first(), more);
        }
    }
}

/// A run of a step, when there are more events.
pub(crate) proof fn lemma_grows<C: Runnable>(
    place: Place,
    step: Step<C>,
    counts: Counts,
    events: Seq<Event>,
    more: Seq<Event>,
)
    ensures
        grows(
            run_one(place, step, counts, events),
            run_one(place, step, counts, events + more),
            more,
        ),
    decreases step, 0nat,
{
    if events.len() > 0 {
        lemma_first_of_more(events, more);
        if let Event::Clock { timestamp, nanos } = events[0] {
            let time = entry_time(timestamp);
            let entered = events.drop_first();
            match step {
                Step::Single { name, command } => {
                    let here = place.child(name@);
                    lemma_ends_grow::<C>(
                        here,
                        time,
                        nanos,
                        counts,
                        Collected::empty(),
                        entered,
                        more,
                    );
                    lemma_grows_after(
                        single_end::<C>(here, nanos, entered),
                        single_end::<C>(here, nanos, entered + more),
                        more,
                        single_opening(here, time, counts, command) + seq![
                            Item::Do(Deed::Run { command }),
                        ],
                    );
                },
                Step::Multiple { name, steps } => {
                    let here = place.child(name@);
                    lemma_steps_grow(here, steps@, counts, Collected::empty(), entered, more);
                    lemma_sequence_grows(here, time, nanos, steps@, counts, entered, more);
                },
                Step::WithBackground { name, background, foreground } => {
                    let here = place.child(name@);
                    if entered.len() > 0 {
                        lemma_first_of_more(entered, more);
                        if entered[0] is Started {
                            let started = entered.drop_first();
                            lemma_grows(here, *foreground, counts, started, more);
                        }
                    }
                    lemma_foreground_grows(here, time, counts, *foreground, entered, more);
                    lemma_grows_after(
                        run_foreground(here, time, counts, *foreground, entered),
                        run_foreground(here, time, counts, *foreground, entered + more),
                        more,
                        background_opening(here, time, counts, background),
                    );
                },
            }
        }
    }
}

/// A collection of steps, when there are more events.
proof fn lemma_sequence_grows<C: Runnable>(
    here: Place,
    time: Seq<char>,
    started: u64,
    steps: Seq<Step<C>>,
    counts: Counts,
    events: Seq<Event>,
    more: Seq<Event>,
)
    requires
        grows(
            run_steps(here, steps, counts, Collected::empty(), events),
            run_steps(here, steps, counts, Collected::empty(), events + more),
            more,
        ),
    ensures
        grows(
            whole_collection(
                here,
                time,
                started,
                counts,
                run_steps(here, steps, counts, Collected::empty(), events),
            ),
            whole_collection(
                here,
                time,
                started,
                counts,
                run_steps(here, steps, counts, Collected::empty(), events + more),
            ),
            more,
        ),
{
    let run = run_steps(here, steps, counts, Collected::empty(), events);
    let longer = run_steps(here, steps, counts, Collected::empty(), events + more);
    let open = seq![opening_entry::<C>(here, time, counts)];
    let read = seq![Item::<C>::Do(Deed::ReadClock)];
    match run.end {
        Some(((collected, counts2), rest)) => {
            lemma_ends_grow::<C>(here, time, started, counts2, collected, rest, more);
            lemma_grows_after(
                sequence_end::<C>(here, time, started, counts2, collected, rest),
                sequence_end::<C>(here, time, started, counts2, collected, rest + more),
                more,
                open + run.trace + read,
            );
        },
        None => {
            lemma_prefix_after(open, run.trace, longer.trace);
            if let Some(((collected, counts2), rest)) = longer.end {
                let end = sequence_end::<C>(here, time, started, counts2, collected, rest).trace;
                assert((open + longer.trace + read) + end =~= (open + longer.trace) + (read + end));
                lemma_prefix_of_more(open + run.trace, open + longer.trace, read + end);
            }
        },
    }
}

/// A step with a background command, when there are more events.
proof fn lemma_foreground_grows<C: Runnable>(
    here: Place,
    time: Seq<char>,
    counts: Counts,
    foreground: Step<C>,
    events: Seq<Event>,
    more: Seq<Event>,
)
    requires
        events.len() > 0 && events[0] is Started ==> grows(
            run_one(here, foreground, counts, events.drop_first()),
            run_one(here, foreground, counts, events.drop_first() + more),
            more,
        ),
    ensures
        grows(
            run_foreground(here, time, counts, foreground, events),
            run_foreground(here, time, counts, foreground, events + more),
            more,
        ),
{
    if events.len() > 0 {
        lemma_first_of_more(events, more);
        if events[0] is Started {
            let run = run_one(here, foreground, counts, events.drop_first());
            let longer = run_one(here, foreground, counts, events.drop_first() + more);
            let read = seq![Item::<C>::Do(Deed::ReadClock)];
            let stop = seq![Item::<C>::Do(Deed::Stop)];
            match run.end {
                Some((collected, rest)) => {
                    lemma_background_grows::<C>(here, time, counts, collected, rest, more);
                    lemma_grows_after(
                        background_stop::<C>(here, time, counts, collected, rest),
                        background_stop::<C>(here, time, counts, collected, rest + more),
                        more,
                        read + run.trace + stop,
                    );
                },
                None => {
                    lemma_prefix_after(read, run.trace, longer.trace);
                    if let Some((collected, rest)) = longer.end {
                        let end = background_stop::<C>(here, time, counts, collected, rest).trace;
                        assert((read + longer.trace + stop) + end =~= (read + longer.trace) + (stop
                            + end));
                        lemma_prefix_of_more(read + run.trace, read + longer.trace, stop + end);
                    }
                },
            }
        }
    }
}

/// A run of several steps, when there are more events.
pub(crate) proof fn lemma_steps_grow<C: Runnable>(
    here: Place,
    steps: Seq<Step<C>>,
    counts: Counts,
    collected: Collected,
    events: Seq<Event>,
    more: Seq<Event>,
)
    ensures
        grows(
            run_steps(here, steps, counts, collected, events),
            run_steps(here, steps, counts, collected, events + more),
            more,
        ),
    decreases steps, 0nat,
{
    if steps.len() > 0 {
        lemma_grows(here, steps[0], counts, events, more);
        let run = run_one(here, steps[0], counts, events);
        let longer = run_one(here, steps[0], counts, events + more);
        let read = seq![Item::<C>::Do(Deed::ReadClock)];
        match run.end {
            Some((sub, rest)) => {
                if !(sub.has_error() && !here.flags.keep_going) {
                    let counts2 = counts.after(here.prefix.len(), sub.has_error());
                    let collected2 = collected.absorb(sub);
                    lemma_steps_grow(here, steps.drop_first(), counts2, collected2, rest, more);
                    lemma_grows_after(
                        run_steps(here, steps.drop_first(), counts2, collected2, rest),
                        run_steps(here, steps.drop_first(), counts2, collected2, rest + more),
                        more,
                        read + run.trace,
                    );
                }
            },
            None => {
                lemma_prefix_after(read, run.trace, longer.trace);
                let all = run_steps(here, steps, counts, collected, events + more);
                if let Some((sub, rest)) = longer.end {
                    if !(sub.has_error() && !here.flags.keep_going) {
                        let counts2 = counts.after(here.prefix.len(), sub.has_error());
                        let others = run_steps(
                            here,
                            steps.drop_first(),
                            counts2,
                            collected.absorb(sub),
                            rest,
                        );
                        lemma_prefix_of_more(read + run.trace, read + longer.trace, others.trace);
                    }
                }
            },
        }
    }
}

/// What a run has shown and asked for is not changed by the events to come; and once it has come
/// to its end, nothing is added.
pub proof fn traces_only_grow<C: Runnable>(
    place: Place,
    step: Step<C>,
    counts: Counts,
    events: Seq<Event>,
    more: Seq<Event>,
)
    ensures
        trace(place, step, counts, events).is_prefix_of(trace(place, step, counts, events + more)),
        run_one(place, step, counts, events).end is Some ==> trace(
            place,
            step,
            counts,
            events + more,
        ) == trace(place, step, counts, events),
{
    lemma_grows(place, step, counts, events, more);
    let run = run_one(place, step, counts, events);
    let longer = run_one(place, step, counts, events + more);
    if run.end is None {
        if let Some((result, _)) = longer.end {
            lemma_prefix_of_more(
                run.trace,
                longer.trace,
                seq![Item::<C>::Do(Deed::Done { result })],
            );
        }
    }
}

} // verus!
