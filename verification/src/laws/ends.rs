//! The commands that end in the course of a run, and what is recorded of them.

use vstd::prelude::*;

use crate::status::SingleStatusResult;
use crate::step::{Runnable, Step};
use crate::trace::Event;
#[allow(unused_imports)]
use crate::context::Place;
#[allow(unused_imports)]
use crate::laws::values::{
    before, lemma_accounts, lemma_all_remain, lemma_others_remain, lemma_remains_of,
    lemma_steps_account, lemma_with_value, lemma_with_values, remains,
};
#[allow(unused_imports)]
use crate::status::{Collected, Counts, StatusResultValue};
#[allow(unused_imports)]
use crate::text::joined;
#[allow(unused_imports)]
use crate::trace::{background_stop, entry_time, run_one, run_steps};

verus! {

/// The end of a command: the names of the steps around it from the outermost to the innermost,
/// whether it ran in the background, and how it ended.
pub struct End {
    pub names: Seq<Seq<char>>,
    pub background: bool,
    pub status: SingleStatusResult,
}

impl End {
    /// Whether the command failed.
    pub open spec fn failed(self) -> bool {
        self.status.value == StatusResultValue::Error
    }

    /// Whether the command is to be recorded: one in the background if it failed; any other one if
    /// it left logs, and failed or logs were asked for.
    pub open spec fn recorded(self, logs: bool) -> bool {
        if self.background {
            self.failed()
        } else {
            (self.failed() || logs) && self.status.logs@.len() > 0
        }
    }
}

/// How the commands ended, in the order of the events.
pub open spec fn statuses(events: Seq<Event>) -> Seq<SingleStatusResult>
    decreases events.len(),
{
    if events.len() == 0 {
        Seq::empty()
    } else {
        match events.last() {
            Event::Finished { status, .. } => statuses(events.drop_last()).push(status),
            _ => statuses(events.drop_last()),
        }
    }
}

/// Whether one of the commands failed.
pub open spec fn any_failed(ends: Seq<End>) -> bool {
    exists|i: int| 0 <= i < ends.len() && (#[trigger] ends[i]).failed()
}

/// The commands of a step inside of the steps called `names` that end, from the first to the last,
/// if they end one after the other as given. A background command ends after all of the foreground
/// step.
pub open spec fn step_ends<C>(
    step: Step<C>,
    names: Seq<Seq<char>>,
    keep_going: bool,
    statuses: Seq<SingleStatusResult>,
) -> Seq<End>
    decreases step, 0nat,
{
    match step {
        Step::Single { name, .. } => if statuses.len() == 0 {
            Seq::empty()
        } else {
            seq![End { names: names.push(name@), background: false, status: statuses[0] }]
        },
        Step::Multiple { name, steps } => steps_ends(
            steps@,
            names.push(name@),
            keep_going,
            statuses,
        ),
        Step::WithBackground { name, foreground, .. } => {
            let inner = step_ends(*foreground, names.push(name@), keep_going, statuses);
            if statuses.len() <= inner.len() {
                inner
            } else {
                let status = statuses[inner.len() as int];
                inner.push(End { names: names.push(name@), background: true, status })
            }
        },
    }
}

/// The commands of several steps that end, from the first to the last. None of those that come
/// after a step in which one failed is run, unless the run is to be continued after errors.
pub open spec fn steps_ends<C>(
    steps: Seq<Step<C>>,
    names: Seq<Seq<char>>,
    keep_going: bool,
    statuses: Seq<SingleStatusResult>,
) -> Seq<End>
    decreases steps, 0nat,
{
    if steps.len() == 0 {
        Seq::empty()
    } else {
        let first = step_ends(steps[0], names, keep_going, statuses);
        if any_failed(first) && !keep_going {
            first
        } else {
            first + steps_ends(
                steps.drop_first(),
                names,
                keep_going,
                statuses.skip(first.len() as int),
            )
        }
    }
}

/// The contexts of those commands that are to be recorded, in order.
pub open spec fn records(ends: Seq<End>, logs: bool) -> Seq<Seq<char>>
    decreases ends.len(),
{
    if ends.len() == 0 {
        Seq::empty()
    } else if ends.last().recorded(logs) {
        records(ends.drop_last(), logs).push(joined(ends.last().names, " ❯ "@))
    } else {
        records(ends.drop_last(), logs)
    }
}

/// Ends are listed across two parts of the events.
proof fn lemma_statuses(first: Seq<Event>, second: Seq<Event>)
    ensures
        statuses(first + second) == statuses(first) + statuses(second),
    decreases second.len(),
{
    if second.len() == 0 {
        assert(first + second =~= first);
        assert(statuses(first) + statuses(second) =~= statuses(first));
    } else {
        assert((first + second).drop_last() =~= first + second.drop_last());
        lemma_statuses(first, second.drop_last());
        if let Event::Finished { status, .. } = second.last() {
            assert((statuses(first) + statuses(second.drop_last())).push(status) =~= statuses(first)
                + statuses(second.drop_last()).push(status));
        }
    }
}

/// Records are listed across two parts of the ends.
pub proof fn records_distribute(first: Seq<End>, second: Seq<End>, logs: bool)
    ensures
        records(first + second, logs) == records(first, logs) + records(second, logs),
    decreases second.len(),
{
    if second.len() == 0 {
        assert(first + second =~= first);
        assert(records(first, logs) + records(second, logs) =~= records(first, logs));
    } else {
        assert((first + second).drop_last() =~= first + second.drop_last());
        records_distribute(first, second.drop_last(), logs);
        let context = joined(second.last().names, " ❯ "@);
        assert((records(first, logs) + records(second.drop_last(), logs)).push(context) =~= records(
            first,
            logs,
        ) + records(second.drop_last(), logs).push(context));
    }
}

/// A failure among some ends and others is among either of them.
proof fn lemma_any_failed(first: Seq<End>, second: Seq<End>)
    ensures
        any_failed(first + second) == (any_failed(first) || any_failed(second)),
{
    let all = first + second;
    if any_failed(first) {
        let i = choose|i: int| 0 <= i < first.len() && (#[trigger] first[i]).failed();
        assert(all[i].failed());
    }
    if any_failed(second) {
        let i = choose|i: int| 0 <= i < second.len() && (#[trigger] second[i]).failed();
        assert(all[first.len() + i].failed());
    }
    if any_failed(all) {
        let i = choose|i: int| 0 <= i < all.len() && (#[trigger] all[i]).failed();
        if i < first.len() {
            assert(first[i].failed());
        } else {
            assert(second[i - first.len()].failed());
        }
    }
}

/// One end.
proof fn lemma_one_end(end: End, logs: bool)
    ensures
        any_failed(seq![end]) == end.failed(),
        records(seq![end], logs) == if end.recorded(logs) {
            seq![joined(end.names, " ❯ "@)]
        } else {
            Seq::empty()
        },
{
    let one = seq![end];
    assert(one[0] == end);
    assert(one.drop_last() =~= Seq::empty());
    assert(records(one.drop_last(), logs) =~= Seq::empty());
    if end.recorded(logs) {
        assert(records(one, logs) =~= seq![joined(end.names, " ❯ "@)]);
    }
}

/// The events before `rest` are those before `middle`, and those between the two.
proof fn lemma_statuses_before(rest: Seq<Event>, middle: Seq<Event>, events: Seq<Event>)
    requires
        remains(middle, events),
        remains(rest, middle),
    ensures
        remains(rest, events),
        statuses(before(rest, events)) == statuses(before(middle, events)) + statuses(
            before(rest, middle),
        ),
{
    lemma_remains_of(rest, middle, events);
    assert(before(rest, events) =~= before(middle, events) + before(rest, middle));
    lemma_statuses(before(middle, events), before(rest, middle));
}

/// The first event.
proof fn lemma_first_status(events: Seq<Event>)
    requires
        events.len() > 0,
    ensures
        remains(events.drop_first(), events),
        statuses(before(events.drop_first(), events)) == match events[0] {
            Event::Finished { status, .. } => seq![status],
            _ => Seq::empty(),
        },
{
    lemma_others_remain(events);
    let one = before(events.drop_first(), events);
    assert(one =~= seq![events[0]]);
    assert(one.drop_last() =~= Seq::empty());
    assert(statuses(one.drop_last()) =~= Seq::empty());
    if let Event::Finished { status, .. } = events[0] {
        assert(statuses(one) =~= seq![status]);
    }
}

/// Whether the ends are as many as the commands that have ended, and tell of the same failures and
/// records as what was collected.
spec fn told(
    ends: Seq<End>,
    ended: Seq<SingleStatusResult>,
    logs: bool,
    collected: Collected,
) -> bool {
    &&& ends.len() == ended.len()
    &&& any_failed(ends) == collected.has_error()
    &&& records(ends, logs) == collected.failed
    &&& forall|i: int| 0 <= i < ends.len() ==> (#[trigger] ends[i]).status == ended[i]
}

/// The ends in a run of a step, whatever ends after it.
#[verifier::rlimit(50)]
proof fn lemma_step_ends<C: Runnable>(
    place: Place,
    step: Step<C>,
    counts: Counts,
    events: Seq<Event>,
    tail: Seq<SingleStatusResult>,
)
    ensures
        run_one(place, step, counts, events).end matches Some((collected, rest)) ==> {
            let ended = statuses(before(rest, events));
            told(
                step_ends(step, place.prefix, place.flags.keep_going, ended + tail),
                ended,
                place.flags.logs,
                collected,
            )
        },
    decreases step, 0nat,
{
    let (keep_going, logs) = (place.flags.keep_going, place.flags.logs);
    lemma_accounts(place, step, counts, events);
    if let Some((collected, rest)) = run_one(place, step, counts, events).end {
        if let Event::Clock { timestamp, nanos } = events[0] {
            let ended = statuses(before(rest, events));
            let entered = events.drop_first();
            lemma_first_status(events);
            match step {
                Step::Single { name, .. } => {
                    lemma_first_status(entered);
                    lemma_statuses_before(rest, entered, events);
                    if let Event::Finished { status, .. } = entered[0] {
                        assert(ended =~= seq![status]);
                        let end = End {
                            names: place.prefix.push(name@),
                            background: false,
                            status: (ended + tail)[0],
                        };
                        lemma_one_end(end, logs);
                        lemma_with_value(Seq::empty(), status.value);
                        assert(Seq::<Seq<char>>::empty().push(place.child(name@).text()) =~= seq![
                            joined(end.names, " ❯ "@),
                        ]);
                    }
                },
                Step::Multiple { name, steps } => {
                    let here = place.child(name@);
                    let run = run_steps(here, steps@, counts, Collected::empty(), entered);
                    if let Some((_, closing)) = run.end {
                        lemma_steps_account(here, steps@, counts, Collected::empty(), entered);
                        lemma_first_status(closing);
                        lemma_statuses_before(rest, closing, entered);
                        lemma_statuses_before(rest, entered, events);
                        assert(ended =~= statuses(before(closing, entered)));
                        lemma_steps_ends(here, steps@, counts, Collected::empty(), entered, tail);
                        let ends = steps_ends(steps@, here.prefix, keep_going, ended + tail);
                        assert(Seq::<Seq<char>>::empty() + records(ends, logs) =~= records(
                            ends,
                            logs,
                        ));
                    }
                },
                Step::WithBackground { name, foreground, .. } => {
                    let here = place.child(name@);
                    let started = entered.drop_first();
                    lemma_first_status(entered);
                    lemma_accounts(here, *foreground, counts, started);
                    let run = run_one(here, *foreground, counts, started);
                    if let Some((inner, stopping)) = run.end {
                        let waiting = stopping.drop_first();
                        lemma_first_status(stopping);
                        lemma_first_status(waiting);
                        lemma_statuses_before(rest, waiting, stopping);
                        lemma_statuses_before(rest, stopping, started);
                        lemma_statuses_before(rest, started, entered);
                        lemma_statuses_before(rest, entered, events);
                        if let Event::Finished { status, .. } = waiting[0] {
                            let inside = statuses(before(stopping, started));
                            assert(ended =~= inside + seq![status]);
                            lemma_step_ends(
                                here,
                                *foreground,
                                counts,
                                started,
                                seq![status] + tail,
                            );
                            assert(ended + tail =~= inside + (seq![status] + tail));
                            let ends = step_ends(
                                *foreground,
                                here.prefix,
                                keep_going,
                                ended + tail,
                            );
                            let end = End { names: here.prefix, background: true, status };
                            assert((ended + tail)[inside.len() as int] == status);
                            lemma_one_end(end, logs);
                            assert(ends.push(end) =~= ends + seq![end]);
                            records_distribute(ends, seq![end], logs);
                            lemma_any_failed(ends, seq![end]);
                            lemma_with_value(inner.values, status.value);
                            assert(records(ends, logs) + Seq::<Seq<char>>::empty() =~= records(
                                ends,
                                logs,
                            ));
                            assert(inner.failed.push(here.text()) =~= inner.failed + seq![
                                joined(end.names, " ❯ "@),
                            ]);
                        }
                    }
                },
            }
        }
    }
}

/// The ends in a run of several steps, whatever ends after it.
#[verifier::rlimit(50)]
proof fn lemma_steps_ends<C: Runnable>(
    here: Place,
    steps: Seq<Step<C>>,
    counts: Counts,
    collected: Collected,
    events: Seq<Event>,
    tail: Seq<SingleStatusResult>,
)
    requires
        collected.values.no_duplicates(),
    ensures
        run_steps(here, steps, counts, collected, events).end matches Some(((all, _), rest)) ==> {
            let ended = statuses(before(rest, events));
            let ends = steps_ends(steps, here.prefix, here.flags.keep_going, ended + tail);
            &&& remains(rest, events)
            &&& ends.len() == ended.len()
            &&& all.has_error() == (collected.has_error() || any_failed(ends))
            &&& all.failed == collected.failed + records(ends, here.flags.logs)
            &&& forall|i: int| 0 <= i < ends.len() ==> (#[trigger] ends[i]).status == ended[i]
        },
    decreases steps, 0nat,
{
    let (keep_going, logs) = (here.flags.keep_going, here.flags.logs);
    if steps.len() == 0 {
        lemma_all_remain(events);
        assert(before(events, events) =~= Seq::empty());
        assert(collected.failed + Seq::<Seq<char>>::empty() =~= collected.failed);
    } else {
        lemma_accounts(here, steps[0], counts, events);
        lemma_steps_account(here, steps, counts, collected, events);
        if let Some((sub, middle)) = run_one(here, steps[0], counts, events).end {
            let counts2 = counts.after(here.prefix.len(), sub.has_error());
            let collected2 = collected.absorb(sub);
            let first = statuses(before(middle, events));
            lemma_with_values(collected.values, sub.values);
            if sub.has_error() && !keep_going {
                lemma_step_ends(here, steps[0], counts, events, tail);
            } else {
                lemma_steps_account(here, steps.drop_first(), counts2, collected2, middle);
                if let Some(((all, _), rest)) = run_steps(
                    here,
                    steps.drop_first(),
                    counts2,
                    collected2,
                    middle,
                ).end {
                    let second = statuses(before(rest, middle));
                    lemma_statuses_before(rest, middle, events);
                    lemma_step_ends(here, steps[0], counts, events, second + tail);
                    lemma_steps_ends(here, steps.drop_first(), counts2, collected2, middle, tail);
                    let ended = first + second;
                    assert(ended + tail =~= first + (second + tail));
                    assert((ended + tail).skip(first.len() as int) =~= second + tail);
                    let ends = step_ends(steps[0], here.prefix, keep_going, ended + tail);
                    let others = steps_ends(
                        steps.drop_first(),
                        here.prefix,
                        keep_going,
                        second + tail,
                    );
                    records_distribute(ends, others, logs);
                    lemma_any_failed(ends, others);
                    assert((collected.failed + sub.failed) + records(others, logs)
                        =~= collected.failed + (records(ends, logs) + records(others, logs)));
                }
            }
        }
    }
}

/// At the end of a run, the recorded contexts are exactly, in order and as often as they occur,
/// those of the single commands that left logs and failed, or left logs that were asked for, and of
/// the background commands that failed. The commands that ended are those of the step, as the
/// events tell.
pub proof fn recorded_contexts_are_those_of_the_ends<C: Runnable>(
    place: Place,
    step: Step<C>,
    counts: Counts,
    events: Seq<Event>,
)
    ensures
        run_one(place, step, counts, events).end matches Some((collected, rest)) ==> {
            let ended = statuses(before(rest, events));
            let ends = step_ends(step, place.prefix, place.flags.keep_going, ended);
            &&& ends.len() == ended.len()
            &&& forall|i: int| 0 <= i < ends.len() ==> (#[trigger] ends[i]).status == ended[i]
            &&& collected.failed == records(ends, place.flags.logs)
            &&& collected.has_error() == any_failed(ends)
        },
{
    lemma_step_ends(place, step, counts, events, Seq::empty());
    if let Some((_, rest)) = run_one(place, step, counts, events).end {
        let ended = statuses(before(rest, events));
        assert(ended + Seq::<SingleStatusResult>::empty() =~= ended);
    }
}

/// A recorded command is found among the records.
proof fn lemma_recorded(ends: Seq<End>, logs: bool, i: int)
    requires
        0 <= i < ends.len(),
        ends[i].recorded(logs),
    ensures
        records(ends, logs).contains(joined(ends[i].names, " ❯ "@)),
    decreases ends.len(),
{
    let context = joined(ends[i].names, " ❯ "@);
    let some = records(ends.drop_last(), logs);
    if i == ends.len() - 1 {
        assert(some.push(context)[some.len() as int] == context);
    } else {
        lemma_recorded(ends.drop_last(), logs, i);
        let j = some.index_of(context);
        assert(records(ends, logs)[j] == context);
    }
}

/// However many others failed beside it and however deep it stands, a command that failed is
/// recorded, if it left logs or ran in the background.
pub proof fn every_failure_is_recorded<C: Runnable>(
    place: Place,
    step: Step<C>,
    counts: Counts,
    events: Seq<Event>,
    i: int,
)
    ensures
        run_one(place, step, counts, events).end matches Some((collected, rest)) ==> {
            let ended = statuses(before(rest, events));
            let ends = step_ends(step, place.prefix, place.flags.keep_going, ended);
            0 <= i < ended.len() && ended[i].value == StatusResultValue::Error && (
            ended[i].logs@.len() > 0 || ends[i].background) ==> collected.failed.contains(
                joined(ends[i].names, " ❯ "@),
            )
        },
{
    recorded_contexts_are_those_of_the_ends(place, step, counts, events);
    if let Some((collected, rest)) = run_one(place, step, counts, events).end {
        let ended = statuses(before(rest, events));
        let ends = step_ends(step, place.prefix, place.flags.keep_going, ended);
        if 0 <= i < ends.len() && ends[i].recorded(place.flags.logs) {
            lemma_recorded(ends, place.flags.logs, i);
        }
    }
}

} // verus!
