//! What a run does after a failure.

use vstd::prelude::*;

use crate::step::{Runnable, Step};
use crate::trace::Event;
#[allow(unused_imports)]
use crate::context::Place;
#[allow(unused_imports)]
use crate::laws::values::{
    before, finished, lemma_accounts, lemma_reported, lemma_steps_account, lemma_with_values,
    remains, reported,
};
#[allow(unused_imports)]
use crate::laws::order::{
    commands, lemma_background_commands, lemma_background_keeps_error, lemma_closed_commands,
    lemma_commands, lemma_commands_between, lemma_ends_launch_nothing, lemma_foreground_commands,
    lemma_no_commands,
};
#[allow(unused_imports)]
use crate::laws::growth::{lemma_first_of_more, lemma_grows, lemma_steps_grow};
#[allow(unused_imports)]
use crate::status::{Collected, Counts, StatusResultValue};
#[allow(unused_imports)]
use crate::trace::{
    background_stop, entry_time, run_foreground, run_one, run_steps, trace, Deed, Item, Progress,
};

verus! {

/// Whether no more commands are asked for between `run` and `longer`, unless the former has come to
/// its end, and whether the latter tells of an error at its end.
spec fn halts<C>(run: Progress<C, Collected>, longer: Progress<C, Collected>) -> bool {
    run.end is None ==> {
        &&& commands(longer.trace) == commands(run.trace)
        &&& longer.end matches Some((collected, _)) ==> collected.has_error()
    }
}

/// The same, of several steps.
spec fn steps_halt<C>(
    run: Progress<C, (Collected, Counts)>,
    longer: Progress<C, (Collected, Counts)>,
) -> bool {
    run.end is None ==> {
        &&& commands(longer.trace) == commands(run.trace)
        &&& longer.end matches Some(((collected, _), _)) ==> collected.has_error()
    }
}

/// An error that was not in the first event is in one of the others.
proof fn lemma_reported_later(events: Seq<Event>)
    requires
        reported(events, StatusResultValue::Error),
        !finished(events[0], StatusResultValue::Error),
    ensures
        events.len() > 0,
        reported(events.drop_first(), StatusResultValue::Error),
{
    let rest = events.drop_first();
    lemma_reported(seq![events[0]], rest, StatusResultValue::Error);
    assert(seq![events[0]] + rest =~= events);
    if reported(seq![events[0]], StatusResultValue::Error) {
        let i = choose|i: int| 0 <= i < 1 && finished(
            #[trigger] seq![events[0]][i],
            StatusResultValue::Error,
        );
        assert(seq![events[0]][i] == events[0]);
    }
}

/// An error that was not in the events before `rest` is in `rest`.
proof fn lemma_reported_in_rest(rest: Seq<Event>, events: Seq<Event>)
    requires
        reported(events, StatusResultValue::Error),
        remains(rest, events),
        !reported(before(rest, events), StatusResultValue::Error),
    ensures
        reported(rest, StatusResultValue::Error),
{
    lemma_reported(before(rest, events), rest, StatusResultValue::Error);
    assert(before(rest, events) + rest =~= events);
}

/// After an error, a background command is waited for, and nothing else.
proof fn lemma_background_halts<C>(
    here: Place,
    time: Seq<char>,
    counts: Counts,
    foreground: Collected,
    events: Seq<Event>,
    more: Seq<Event>,
)
    requires
        foreground.has_error() || reported(events, StatusResultValue::Error),
    ensures
        halts(
            background_stop::<C>(here, time, counts, foreground, events),
            background_stop::<C>(here, time, counts, foreground, events + more),
        ),
{
    let run = background_stop::<C>(here, time, counts, foreground, events);
    let longer = background_stop::<C>(here, time, counts, foreground, events + more);
    lemma_ends_launch_nothing::<C>(here, time, 0, counts, foreground, events);
    lemma_ends_launch_nothing::<C>(here, time, 0, counts, foreground, events + more);
    lemma_no_commands(run.trace);
    lemma_no_commands(longer.trace);
    lemma_background_keeps_error::<C>(here, time, counts, foreground, events + more);
    if run.end is None && longer.end is Some && !foreground.has_error() {
        lemma_first_of_more(events, more);
        lemma_reported_later(events);
        let rest = events.drop_first();
        lemma_first_of_more(rest, more);
    }
}

/// A run of a step, in which some command has failed.
proof fn lemma_halts<C: Runnable>(
    place: Place,
    step: Step<C>,
    counts: Counts,
    events: Seq<Event>,
    more: Seq<Event>,
)
    requires
        !place.flags.keep_going,
        reported(events, StatusResultValue::Error),
    ensures
        halts(run_one(place, step, counts, events), run_one(place, step, counts, events + more)),
    decreases step, 0nat,
{
    lemma_first_of_more(events, more);
    if let Event::Clock { timestamp, nanos } = events[0] {
        let time = entry_time(timestamp);
        let entered = events.drop_first();
        lemma_reported_later(events);
        match step {
            Step::Single { name, command } => {
                lemma_first_of_more(entered, more);
            },
            Step::Multiple { name, steps } => {
                let here = place.child(name@);
                lemma_steps_halt(here, steps@, counts, Collected::empty(), entered, more);
                lemma_steps_grow(here, steps@, counts, Collected::empty(), entered, more);
                lemma_steps_account(here, steps@, counts, Collected::empty(), entered);
                let run = run_steps(here, steps@, counts, Collected::empty(), entered);
                let longer = run_steps(here, steps@, counts, Collected::empty(), entered + more);
                lemma_closed_commands(here, time, nanos, counts, run);
                lemma_closed_commands(here, time, nanos, counts, longer);
                if let Some(((collected, _), rest)) = run.end {
                    if rest.len() > 0 {
                        lemma_first_of_more(rest, more);
                    } else {
                        assert(before(rest, entered) =~= entered);
                    }
                }
            },
            Step::WithBackground { name, background, foreground } => {
                let here = place.child(name@);
                lemma_first_of_more(entered, more);
                if entered[0] is Started {
                    let started = entered.drop_first();
                    lemma_reported_later(entered);
                    lemma_halts(here, *foreground, counts, started, more);
                    lemma_grows(here, *foreground, counts, started, more);
                    lemma_accounts(here, *foreground, counts, started);
                    lemma_foreground_commands(here, time, counts, *foreground, entered);
                    lemma_foreground_commands(here, time, counts, *foreground, entered + more);
                    let run = run_foreground(here, time, counts, *foreground, entered);
                    let longer = run_foreground(here, time, counts, *foreground, entered + more);
                    lemma_background_commands(here, time, counts, background, run.trace);
                    lemma_background_commands(here, time, counts, background, longer.trace);
                    let inner = run_one(here, *foreground, counts, started);
                    let inner2 = run_one(here, *foreground, counts, started + more);
                    match inner.end {
                        Some((collected, rest)) => {
                            if !collected.has_error() {
                                lemma_reported_in_rest(rest, started);
                            }
                            lemma_background_halts::<C>(here, time, counts, collected, rest, more);
                        },
                        None => {
                            if let Some((collected, rest)) = inner2.end {
                                lemma_background_keeps_error::<C>(
                                    here,
                                    time,
                                    counts,
                                    collected,
                                    rest,
                                );
                            }
                        },
                    }
                }
            },
        }
    }
}

/// A run of several steps, in which some command has failed.
proof fn lemma_steps_halt<C: Runnable>(
    here: Place,
    steps: Seq<Step<C>>,
    counts: Counts,
    collected: Collected,
    events: Seq<Event>,
    more: Seq<Event>,
)
    requires
        !here.flags.keep_going,
        reported(events, StatusResultValue::Error),
    ensures
        steps_halt(
            run_steps(here, steps, counts, collected, events),
            run_steps(here, steps, counts, collected, events + more),
        ),
    decreases steps, 0nat,
{
    if steps.len() > 0 {
        lemma_halts(here, steps[0], counts, events, more);
        lemma_grows(here, steps[0], counts, events, more);
        lemma_accounts(here, steps[0], counts, events);
        let run = run_one(here, steps[0], counts, events);
        let longer = run_one(here, steps[0], counts, events + more);
        let read = seq![Item::<C>::Do(Deed::ReadClock)];
        lemma_commands_between(read, run.trace, Seq::empty());
        lemma_commands_between(read, longer.trace, Seq::empty());
        match run.end {
            Some((sub, rest)) => {
                if !sub.has_error() {
                    let counts2 = counts.after(here.prefix.len(), sub.has_error());
                    let collected2 = collected.absorb(sub);
                    let others = run_steps(here, steps.drop_first(), counts2, collected2, rest);
                    let others2 = run_steps(
                        here,
                        steps.drop_first(),
                        counts2,
                        collected2,
                        rest + more,
                    );
                    lemma_reported_in_rest(rest, events);
                    lemma_steps_halt(here, steps.drop_first(), counts2, collected2, rest, more);
                    lemma_commands(read + run.trace, others.trace);
                    lemma_commands(read + run.trace, others2.trace);
                }
            },
            None => {
                if let Some((sub, rest)) = longer.end {
                    lemma_with_values(collected.values, sub.values);
                }
            },
        }
    }
}

/// Once a command has failed, no other command is run or started, unless the run is to be
/// continued after errors.
pub proof fn no_command_after_a_failure<C: Runnable>(
    place: Place,
    step: Step<C>,
    counts: Counts,
    events: Seq<Event>,
    more: Seq<Event>,
)
    requires
        !place.flags.keep_going,
        reported(events, StatusResultValue::Error),
    ensures
        commands(trace(place, step, counts, events + more)) == commands(
            trace(place, step, counts, events),
        ),
{
    lemma_halts(place, step, counts, events, more);
    lemma_grows(place, step, counts, events, more);
    let run = run_one(place, step, counts, events);
    let longer = run_one(place, step, counts, events + more);
    if let Some((result, _)) = longer.end {
        let done = seq![Item::<C>::Do(Deed::Done { result })];
        lemma_commands_between(Seq::empty(), longer.trace, done);
        assert(Seq::<Item<C>>::empty() + longer.trace =~= longer.trace);
    }
}

} // verus!
