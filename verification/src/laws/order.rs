//! The commands that a run asks for.

use vstd::prelude::*;

use crate::step::{Runnable, Step};
use crate::trace::Event;
#[allow(unused_imports)]
use crate::context::Place;
#[allow(unused_imports)]
use crate::laws::values::{lemma_with_value, lemma_with_values};
#[allow(unused_imports)]
use crate::message::{head_text, Shown};
#[allow(unused_imports)]
use crate::status::{Collected, Counts};
#[allow(unused_imports)]
use crate::trace::{
    background_opening, background_stop, entry_time, run_foreground, run_one, run_steps,
    sequence_end, single_end, single_opening, trace, Deed, Item, Progress,
};

verus! {

/// The commands that are run or started, in order.
pub open spec fn commands<C>(trace: Seq<Item<C>>) -> Seq<C>
    decreases trace.len(),
{
    if trace.len() == 0 {
        Seq::empty()
    } else {
        let before = commands(trace.drop_last());
        match trace.last() {
            Item::Do(Deed::Run { command }) => before.push(command),
            Item::Do(Deed::Start { command, .. }) => before.push(command),
            _ => before,
        }
    }
}

/// The commands of a step, from the first to the last. A background command comes before the
/// foreground step.
pub open spec fn step_commands<C>(step: Step<C>) -> Seq<C>
    decreases step, 0nat,
{
    match step {
        Step::Single { command, .. } => seq![command],
        Step::Multiple { steps, .. } => steps_commands(steps@),
        Step::WithBackground { background, foreground, .. } => seq![background] + step_commands(
            *foreground,
        ),
    }
}

/// The commands of several steps, from the first to the last.
pub open spec fn steps_commands<C>(steps: Seq<Step<C>>) -> Seq<C>
    decreases steps, 0nat,
{
    if steps.len() == 0 {
        Seq::empty()
    } else {
        step_commands(steps[0]) + steps_commands(steps.drop_first())
    }
}

/// Commands are listed across two parts of a trace.
pub(crate) proof fn lemma_commands<C>(first: Seq<Item<C>>, second: Seq<Item<C>>)
    ensures
        commands(first + second) == commands(first) + commands(second),
    decreases second.len(),
{
    if second.len() == 0 {
        assert(first + second =~= first);
        assert(commands(first) + commands(second) =~= commands(first));
    } else {
        assert((first + second).drop_last() =~= first + second.drop_last());
        lemma_commands(first, second.drop_last());
        let some = commands(second.drop_last());
        match second.last() {
            Item::Do(Deed::Run { command }) => {
                assert((commands(first) + some).push(command) =~= commands(first) + some.push(
                    command,
                ));
            },
            Item::Do(Deed::Start { command, .. }) => {
                assert((commands(first) + some).push(command) =~= commands(first) + some.push(
                    command,
                ));
            },
            _ => {},
        }
    }
}

/// Whether an entry asks for a command.
pub open spec fn launches<C>(item: Item<C>) -> bool {
    item matches Item::Do(deed) && (deed is Run || deed is Start)
}

/// Whether no entry asks for a command.
pub open spec fn launches_nothing<C>(trace: Seq<Item<C>>) -> bool {
    forall|i: int| 0 <= i < trace.len() ==> !launches(#[trigger] trace[i])
}

/// Where no entry asks for a command, no commands are listed.
pub(crate) proof fn lemma_no_commands<C>(trace: Seq<Item<C>>)
    requires
        launches_nothing(trace),
    ensures
        commands(trace) == Seq::<C>::empty(),
    decreases trace.len(),
{
    if trace.len() > 0 {
        assert(!launches(trace[trace.len() - 1]));
        lemma_no_commands(trace.drop_last());
    }
}

/// Entries that ask for no command can be left out on either side.
pub(crate) proof fn lemma_commands_between<C>(
    first: Seq<Item<C>>,
    middle: Seq<Item<C>>,
    last: Seq<Item<C>>,
)
    requires
        launches_nothing(first),
        launches_nothing(last),
    ensures
        commands(first + middle + last) == commands(middle),
        commands(first + middle) == commands(middle),
{
    lemma_commands(first + middle, last);
    lemma_commands(first, middle);
    lemma_no_commands(first);
    lemma_no_commands(last);
    assert(Seq::<C>::empty() + commands(middle) + Seq::<C>::empty() =~= commands(middle));
    assert(Seq::<C>::empty() + commands(middle) =~= commands(middle));
}

/// Neither a single command nor a background command asks for another one at its end.
pub(crate) proof fn lemma_ends_launch_nothing<C>(
    here: Place,
    time: Seq<char>,
    started: u64,
    counts: Counts,
    collected: Collected,
    events: Seq<Event>,
)
    ensures
        launches_nothing(single_end::<C>(here, started, events).trace),
        launches_nothing(sequence_end::<C>(here, time, started, counts, collected, events).trace),
        launches_nothing(background_stop::<C>(here, time, counts, collected, events).trace),
{
}

/// The commands of a single command that is run.
proof fn lemma_single_commands<C: Runnable>(
    here: Place,
    time: Seq<char>,
    started: u64,
    counts: Counts,
    command: C,
    events: Seq<Event>,
)
    ensures
        commands(
            single_end(here, started, events).after(
                single_opening(here, time, counts, command) + seq![
                    Item::Do(Deed::Run { command }),
                ],
            ).trace,
        ) == seq![command],
{
    let opening = single_opening(here, time, counts, command);
    let run = seq![Item::<C>::Do(Deed::Run { command })];
    let end = single_end::<C>(here, started, events).trace;
    lemma_ends_launch_nothing::<C>(here, time, started, counts, Collected::empty(), events);
    lemma_commands_between(opening, run, end);
    assert(run.drop_last() =~= Seq::empty());
    assert(commands(run.drop_last()) =~= Seq::empty());
    assert(commands(run) =~= seq![command]);
}

/// The commands of a background command that is started, and of what follows.
pub(crate) proof fn lemma_background_commands<C: Runnable>(
    here: Place,
    time: Seq<char>,
    counts: Counts,
    background: C,
    rest: Seq<Item<C>>,
)
    ensures
        commands(background_opening(here, time, counts, background) + rest) == seq![background]
            + commands(rest),
{
    let opening = background_opening(here, time, counts, background);
    lemma_commands(opening, rest);
    assert(launches_nothing(opening.drop_last()));
    lemma_no_commands(opening.drop_last());
    assert(commands(opening) =~= seq![background]);
}

/// The commands of a step with a background command, after the start of that.
pub(crate) proof fn lemma_foreground_commands<C: Runnable>(
    here: Place,
    time: Seq<char>,
    counts: Counts,
    foreground: Step<C>,
    events: Seq<Event>,
)
    ensures
        commands(run_foreground(here, time, counts, foreground, events).trace) == if events.len()
            == 0 || !(events[0] is Started) {
            Seq::empty()
        } else {
            commands(run_one(here, foreground, counts, events.drop_first()).trace)
        },
{
    if events.len() > 0 && events[0] is Started {
        let run = run_one(here, foreground, counts, events.drop_first());
        let read = seq![Item::<C>::Do(Deed::ReadClock)];
        let stop = seq![Item::<C>::Do(Deed::Stop)];
        match run.end {
            None => {
                lemma_commands_between(read, run.trace, Seq::empty());
            },
            Some((collected, rest)) => {
                let end = background_stop::<C>(here, time, counts, collected, rest).trace;
                lemma_ends_launch_nothing::<C>(here, time, 0, counts, collected, rest);
                assert(launches_nothing(stop + end));
                lemma_commands_between(read, run.trace, stop + end);
                assert((read + run.trace + stop) + end =~= read + run.trace + (stop + end));
            },
        }
    }
}

/// The entry with which a collection of steps is entered.
pub open spec fn opening_entry<C>(here: Place, time: Seq<char>, counts: Counts) -> Item<C> {
    Item::Show(
        Shown::Open { head: head_text(time, counts, here) },
    )
}

/// A collection of steps, of which the steps have come as far as `run`.
pub open spec fn whole_collection<C>(
    here: Place,
    time: Seq<char>,
    started: u64,
    counts: Counts,
    run: Progress<C, (Collected, Counts)>,
) -> Progress<C, Collected> {
    match run.end {
        None => Progress { trace: seq![opening_entry(here, time, counts)] + run.trace, end: None },
        Some(((collected, counts2), rest)) => {
            sequence_end(here, time, started, counts2, collected, rest).after(
                seq![opening_entry(here, time, counts)] + run.trace + seq![
                    Item::Do(Deed::ReadClock),
                ],
            )
        },
    }
}

/// The commands of a collection of steps are those of its steps.
pub(crate) proof fn lemma_closed_commands<C>(
    here: Place,
    time: Seq<char>,
    started: u64,
    counts: Counts,
    run: Progress<C, (Collected, Counts)>,
)
    ensures
        commands(whole_collection(here, time, started, counts, run).trace) == commands(run.trace),
{
    let open = seq![opening_entry::<C>(here, time, counts)];
    match run.end {
        None => {
            lemma_commands_between(open, run.trace, Seq::empty());
        },
        Some(((collected, counts2), rest)) => {
            let read = seq![Item::<C>::Do(Deed::ReadClock)];
            let end = sequence_end::<C>(here, time, started, counts2, collected, rest).trace;
            lemma_ends_launch_nothing::<C>(here, time, started, counts2, collected, rest);
            assert(launches_nothing(read + end));
            lemma_commands_between(open, run.trace, read + end);
            assert((open + run.trace + read) + end =~= open + run.trace + (read + end));
        },
    }
}

/// Whether the commands of a run are the first ones of `all`, and all of them if it has ended
/// without an error, or is to be continued after one.
spec fn in_order<C>(
    launched: Seq<C>,
    all: Seq<C>,
    keep_going: bool,
    end: Option<Collected>,
) -> bool {
    &&& launched.is_prefix_of(all)
    &&& end matches Some(collected) ==> (keep_going || !collected.has_error()) ==> launched == all
}

/// The result at the end of a run, if it has come to its end.
spec fn result_of<C>(run: Progress<C, Collected>) -> Option<Collected> {
    match run.end {
        None => None,
        Some((collected, _)) => Some(collected),
    }
}

/// The commands of a run of a step.
proof fn lemma_in_order<C: Runnable>(
    place: Place,
    step: Step<C>,
    counts: Counts,
    events: Seq<Event>,
)
    ensures
        in_order(
            commands(run_one(place, step, counts, events).trace),
            step_commands(step),
            place.flags.keep_going,
            result_of(run_one(place, step, counts, events)),
        ),
    decreases step, 0nat,
{
    let all = run_one(place, step, counts, events);
    if events.len() > 0 {
        if let Event::Clock { timestamp, nanos } = events[0] {
            let time = entry_time(timestamp);
            let entered = events.drop_first();
            match step {
                Step::Single { name, command } => {
                    lemma_single_commands(
                        place.child(name@),
                        time,
                        nanos,
                        counts,
                        command,
                        entered,
                    );
                },
                Step::Multiple { name, steps } => {
                    let here = place.child(name@);
                    lemma_steps_in_order(here, steps@, counts, Collected::empty(), entered);
                    let run = run_steps(here, steps@, counts, Collected::empty(), entered);
                    lemma_closed_commands(here, time, nanos, counts, run);
                },
                Step::WithBackground { name, background, foreground } => {
                    let here = place.child(name@);
                    let started = entered.drop_first();
                    let run = run_foreground(here, time, counts, *foreground, entered);
                    lemma_background_commands(here, time, counts, background, run.trace);
                    lemma_foreground_commands(here, time, counts, *foreground, entered);
                    if entered.len() > 0 && entered[0] is Started {
                        lemma_in_order(here, *foreground, counts, started);
                        let inner = run_one(here, *foreground, counts, started);
                        if let Some((collected, stopping)) = inner.end {
                            if let Some((result, _)) = background_stop::<C>(
                                here,
                                time,
                                counts,
                                collected,
                                stopping,
                            ).end {
                                lemma_background_keeps_error::<C>(
                                    here,
                                    time,
                                    counts,
                                    collected,
                                    stopping,
                                );
                            }
                        }
                        lemma_prefix_after(
                            seq![background],
                            commands(inner.trace),
                            step_commands(*foreground),
                        );
                    } else {
                        lemma_prefix_after(
                            seq![background],
                            Seq::empty(),
                            step_commands(*foreground),
                        );
                    }
                },
            }
        }
    }
}

/// A longer beginning, if something is put in front of both.
pub(crate) proof fn lemma_prefix_after<C>(first: Seq<C>, some: Seq<C>, all: Seq<C>)
    requires
        some.is_prefix_of(all),
    ensures
        (first + some).is_prefix_of(first + all),
{
    assert(first + some =~= (first + all).subrange(0, (first + some).len() as int));
}

/// A background command does not make up for an error.
pub(crate) proof fn lemma_background_keeps_error<C>(
    here: Place,
    time: Seq<char>,
    counts: Counts,
    foreground: Collected,
    events: Seq<Event>,
)
    ensures
        match background_stop::<C>(here, time, counts, foreground, events).end {
            None => true,
            Some((collected, _)) => foreground.has_error() ==> collected.has_error(),
        },
{
    if events.len() > 1 {
        if let Event::Finished { status, .. } = events.drop_first()[0] {
            lemma_with_value(foreground.values, status.value);
        }
    }
}

/// The commands of a run of several steps.
proof fn lemma_steps_in_order<C: Runnable>(
    here: Place,
    steps: Seq<Step<C>>,
    counts: Counts,
    collected: Collected,
    events: Seq<Event>,
)
    ensures
        ({
            let run = run_steps(here, steps, counts, collected, events);
            &&& commands(run.trace).is_prefix_of(steps_commands(steps))
            &&& run.end matches Some(((result, _), _)) ==> {
                &&& collected.has_error() ==> result.has_error()
                &&& (here.flags.keep_going || !result.has_error()) ==> commands(run.trace)
                    == steps_commands(steps)
            }
        }),
    decreases steps, 0nat,
{
    let all = run_steps(here, steps, counts, collected, events);
    if steps.len() > 0 {
        let run = run_one(here, steps[0], counts, events);
        let read = seq![Item::<C>::Do(Deed::ReadClock)];
        lemma_in_order(here, steps[0], counts, events);
        lemma_commands_between(read, run.trace, Seq::empty());
        let first = step_commands(steps[0]);
        let others = steps_commands(steps.drop_first());
        match run.end {
            None => {
                lemma_prefix_of_more(commands(run.trace), first, others);
            },
            Some((sub, rest)) => {
                let counts2 = counts.after(here.prefix.len(), sub.has_error());
                let collected2 = collected.absorb(sub);
                lemma_with_values(collected.values, sub.values);
                if sub.has_error() && !here.flags.keep_going {
                    lemma_prefix_of_more(commands(run.trace), first, others);
                } else {
                    let more = run_steps(here, steps.drop_first(), counts2, collected2, rest);
                    lemma_steps_in_order(here, steps.drop_first(), counts2, collected2, rest);
                    lemma_commands(read + run.trace, more.trace);
                    lemma_prefix_after(first, commands(more.trace), others);
                }
            },
        }
    }
}

/// A beginning is one of anything longer too.
pub(crate) proof fn lemma_prefix_of_more<C>(some: Seq<C>, first: Seq<C>, others: Seq<C>)
    requires
        some.is_prefix_of(first),
    ensures
        some.is_prefix_of(first + others),
{
    assert(some =~= (first + others).subrange(0, some.len() as int));
}

/// A run asks for the commands of its step one by one, in the order in which the step holds them.
/// It asks for all of them if it comes to its end without an error, or if it is to be continued
/// after errors.
pub proof fn commands_are_run_in_order<C: Runnable>(
    place: Place,
    step: Step<C>,
    counts: Counts,
    events: Seq<Event>,
)
    ensures
        ({
            let run = run_one(place, step, counts, events);
            &&& commands(run.trace).is_prefix_of(step_commands(step))
            &&& run.end matches Some((collected, _)) ==> (place.flags.keep_going
                || !collected.has_error()) ==> commands(run.trace) == step_commands(step)
        }),
{
    lemma_in_order(place, step, counts, events);
}

} // verus!
