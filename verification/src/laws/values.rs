//! The values that a run ends with.

use vstd::prelude::*;

use crate::step::{Runnable, Step};
use crate::trace::Event;
#[allow(unused_imports)]
use crate::context::Place;
#[allow(unused_imports)]
use crate::status::{with_value, with_values, Collected, Counts, StatusResultValue};
#[allow(unused_imports)]
use crate::trace::{background_stop, entry_time, run_one, run_steps, Progress};

verus! {

/// Whether the event is the end of a command with the given value.
pub open spec fn finished(event: Event, value: StatusResultValue) -> bool {
    event matches Event::Finished { status, .. } && status.value == value
}

/// Whether some command has ended with the given value.
pub open spec fn reported(events: Seq<Event>, value: StatusResultValue) -> bool {
    exists|i: int| 0 <= i < events.len() && finished(#[trigger] events[i], value)
}

/// Whether `rest` is the end of `events`.
pub open spec fn remains(rest: Seq<Event>, events: Seq<Event>) -> bool {
    rest.len() <= events.len() && rest == events.skip(events.len() - rest.len())
}

/// The events that come before `rest`.
pub open spec fn before(rest: Seq<Event>, events: Seq<Event>) -> Seq<Event> {
    events.take(events.len() - rest.len())
}

/// Nothing comes before all of the events.
pub(crate) proof fn lemma_all_remain(events: Seq<Event>)
    ensures
        remains(events, events),
        forall|value: StatusResultValue| !#[trigger] reported(before(events, events), value),
{
    assert(events.skip(0) =~= events);
}

/// The first event comes before the others.
pub(crate) proof fn lemma_others_remain(events: Seq<Event>)
    requires
        events.len() > 0,
    ensures
        remains(events.drop_first(), events),
        forall|value: StatusResultValue| #[trigger]
            reported(before(events.drop_first(), events), value) == finished(events[0], value),
{
    let rest = events.drop_first();
    assert(events.skip(1) =~= rest);
    assert forall|value: StatusResultValue| #[trigger]
        reported(before(rest, events), value) == finished(events[0], value) by {
        assert(before(rest, events)[0] == events[0]);
    }
}

/// What comes before `rest` comes before `middle`, or else between the two.
pub(crate) proof fn lemma_remains_of(rest: Seq<Event>, middle: Seq<Event>, events: Seq<Event>)
    requires
        remains(middle, events),
        remains(rest, middle),
    ensures
        remains(rest, events),
        forall|value: StatusResultValue| #[trigger]
            reported(before(rest, events), value) == (reported(before(middle, events), value)
                || reported(before(rest, middle), value)),
{
    assert(events.skip(events.len() - rest.len()) =~= rest);
    let (first, second) = (before(middle, events), before(rest, middle));
    assert(before(rest, events) =~= first + second);
    assert forall|value: StatusResultValue| #[trigger]
        reported(before(rest, events), value) == (reported(first, value) || reported(
            second,
            value,
        )) by {
        lemma_reported(first, second, value);
    }
}

/// What is reported by some events and others is reported by either of them.
pub(crate) proof fn lemma_reported(first: Seq<Event>, second: Seq<Event>, value: StatusResultValue)
    ensures
        reported(first + second, value) == (reported(first, value) || reported(second, value)),
{
    let all = first + second;
    if reported(first, value) {
        let i = choose|i: int| 0 <= i < first.len() && finished(#[trigger] first[i], value);
        assert(finished(all[i], value));
    }
    if reported(second, value) {
        let i = choose|i: int| 0 <= i < second.len() && finished(#[trigger] second[i], value);
        assert(finished(all[first.len() + i], value));
    }
    if reported(all, value) {
        let i = choose|i: int| 0 <= i < all.len() && finished(#[trigger] all[i], value);
        if i < first.len() {
            assert(finished(first[i], value));
        } else {
            assert(finished(second[i - first.len()], value));
        }
    }
}

/// A value that is added is there, and nothing else is new.
pub(crate) proof fn lemma_with_value(values: Seq<StatusResultValue>, value: StatusResultValue)
    ensures
        forall|other: StatusResultValue| #[trigger]
            with_value(values, value).contains(other) == (values.contains(other) || other == value),
        values.no_duplicates() ==> with_value(values, value).no_duplicates(),
{
    let added = values.push(value);
    assert forall|other: StatusResultValue| #[trigger]
        added.contains(other) == (values.contains(other) || other == value) by {
        if values.contains(other) {
            let i = values.index_of(other);
            assert(added[i] == other);
        }
        assert(added[values.len() as int] == value);
    }
}

/// Values that are added are there, and nothing else is new.
pub(crate) proof fn lemma_with_values(values: Seq<StatusResultValue>, more: Seq<StatusResultValue>)
    ensures
        forall|other: StatusResultValue| #[trigger]
            with_values(values, more).contains(other) == (values.contains(other) || more.contains(
                other,
            )),
        values.no_duplicates() ==> with_values(values, more).no_duplicates(),
    decreases more.len(),
{
    if more.len() > 0 {
        let some = with_values(values, more.drop_last());
        lemma_with_values(values, more.drop_last());
        lemma_with_value(some, more.last());
        assert forall|other: StatusResultValue| #[trigger]
            more.contains(other) == (more.drop_last().contains(other) || other == more.last()) by {
            if more.drop_last().contains(other) {
                let i = more.drop_last().index_of(other);
                assert(more[i] == other);
            }
            if more.contains(other) && other != more.last() {
                let i = more.index_of(other);
                assert(more.drop_last()[i] == other);
            }
            assert(more[more.len() - 1] == more.last());
        }
    }
}

/// Whether a run that has come to its end on `events` holds exactly the values of the commands
/// that have ended meanwhile, each once.
pub open spec fn accounts<C>(run: Progress<C, Collected>, events: Seq<Event>) -> bool {
    match run.end {
        None => true,
        Some((collected, rest)) => {
            &&& remains(rest, events)
            &&& collected.values.no_duplicates()
            &&& forall|value: StatusResultValue| #[trigger]
                collected.values.contains(value) == reported(before(rest, events), value)
        },
    }
}

/// Nothing is there before a value is added.
proof fn lemma_empty_insert(value: StatusResultValue)
    ensures
        forall|other: StatusResultValue| #[trigger]
            with_value(Seq::empty(), value).contains(other) == (other == value),
        with_value(Seq::empty(), value).no_duplicates(),
{
    lemma_with_value(Seq::empty(), value);
}

/// The values of a background command.
proof fn lemma_background_accounts<C>(
    here: Place,
    time: Seq<char>,
    counts: Counts,
    foreground: Collected,
    events: Seq<Event>,
)
    requires
        foreground.values.no_duplicates(),
    ensures
        match background_stop::<C>(here, time, counts, foreground, events).end {
            None => true,
            Some((collected, rest)) => {
                &&& remains(rest, events)
                &&& collected.values.no_duplicates()
                &&& forall|value: StatusResultValue| #[trigger]
                    collected.values.contains(value) == (foreground.values.contains(value)
                        || reported(before(rest, events), value))
            },
        },
{
    if let Some((collected, rest)) = background_stop::<C>(
        here,
        time,
        counts,
        foreground,
        events,
    ).end {
        let middle = events.drop_first();
        lemma_others_remain(events);
        lemma_others_remain(middle);
        lemma_remains_of(rest, middle, events);
        if let Event::Finished { status, .. } = middle[0] {
            lemma_with_value(foreground.values, status.value);
        }
    }
}

/// The values of a run of a step.
pub(crate) proof fn lemma_accounts<C: Runnable>(
    place: Place,
    step: Step<C>,
    counts: Counts,
    events: Seq<Event>,
)
    ensures
        accounts(run_one(place, step, counts, events), events),
    decreases step, 0nat,
{
    if let Some((collected, rest)) = run_one(place, step, counts, events).end {
        let entered = events.drop_first();
        lemma_others_remain(events);
        if let Event::Clock { timestamp, nanos } = events[0] {
            match step {
                Step::Single { name, .. } => {
                    lemma_others_remain(entered);
                    lemma_remains_of(rest, entered, events);
                    if let Event::Finished { status, .. } = entered[0] {
                        lemma_empty_insert(status.value);
                    }
                },
                Step::Multiple { name, steps } => {
                    let here = place.child(name@);
                    lemma_steps_account(here, steps@, counts, Collected::empty(), entered);
                    let run = run_steps(here, steps@, counts, Collected::empty(), entered);
                    if let Some((_, closing)) = run.end {
                        lemma_others_remain(closing);
                        lemma_remains_of(rest, closing, entered);
                        lemma_remains_of(rest, entered, events);
                    }
                },
                Step::WithBackground { name, foreground, .. } => {
                    let here = place.child(name@);
                    let time = entry_time(timestamp);
                    let started = entered.drop_first();
                    lemma_others_remain(entered);
                    lemma_accounts(here, *foreground, counts, started);
                    let run = run_one(here, *foreground, counts, started);
                    if let Some((inner, stopping)) = run.end {
                        lemma_background_accounts::<C>(here, time, counts, inner, stopping);
                        lemma_remains_of(rest, stopping, started);
                        lemma_remains_of(rest, started, entered);
                        lemma_remains_of(rest, entered, events);
                    }
                },
            }
        }
    }
}

/// The values of a run of several steps.
pub(crate) proof fn lemma_steps_account<C: Runnable>(
    here: Place,
    steps: Seq<Step<C>>,
    counts: Counts,
    collected: Collected,
    events: Seq<Event>,
)
    requires
        collected.values.no_duplicates(),
    ensures
        match run_steps(here, steps, counts, collected, events).end {
            None => true,
            Some(((all, _), rest)) => {
                &&& remains(rest, events)
                &&& all.values.no_duplicates()
                &&& forall|value: StatusResultValue| #[trigger]
                    all.values.contains(value) == (collected.values.contains(value) || reported(
                        before(rest, events),
                        value,
                    ))
            },
        },
    decreases steps, 0nat,
{
    if steps.len() == 0 {
        lemma_all_remain(events);
    } else {
        lemma_accounts(here, steps[0], counts, events);
        if let Some((sub, middle)) = run_one(here, steps[0], counts, events).end {
            let counts2 = counts.after(here.prefix.len(), sub.has_error());
            let collected2 = collected.absorb(sub);
            lemma_with_values(collected.values, sub.values);
            if !(sub.has_error() && !here.flags.keep_going) {
                lemma_steps_account(here, steps.drop_first(), counts2, collected2, middle);
                if let Some((_, rest)) = run_steps(
                    here,
                    steps.drop_first(),
                    counts2,
                    collected2,
                    middle,
                ).end {
                    lemma_remains_of(rest, middle, events);
                }
            }
        }
    }
}

/// The result of a run holds the value of every command that has ended in its course, and no other
/// values; and it holds none of them twice.
pub proof fn result_holds_what_was_reported<C: Runnable>(
    place: Place,
    step: Step<C>,
    counts: Counts,
    events: Seq<Event>,
)
    ensures
        match run_one(place, step, counts, events).end {
            None => true,
            Some((collected, rest)) => {
                &&& remains(rest, events)
                &&& collected.values.no_duplicates()
                &&& forall|value: StatusResultValue| #[trigger]
                    collected.values.contains(value) == reported(before(rest, events), value)
            },
        },
{
    lemma_accounts(place, step, counts, events);
}

/// If no command does anything else than to be skipped, as in a dry run, then nothing but that is
/// in the result of the run.
pub proof fn skipping_only_leads_to_skipped<C: Runnable>(
    place: Place,
    step: Step<C>,
    counts: Counts,
    events: Seq<Event>,
)
    requires
        forall|i: int|
            0 <= i < events.len() ==> ((#[trigger] events[i]) matches Event::Finished { status, .. }
                ==> status.value == StatusResultValue::Skipped),
    ensures
        match run_one(place, step, counts, events).end {
            None => true,
            Some((collected, _)) => {
                &&& !collected.has_error()
                &&& !collected.values.contains(StatusResultValue::Passed)
            },
        },
{
    lemma_accounts(place, step, counts, events);
    if let Some((collected, rest)) = run_one(place, step, counts, events).end {
        let used = before(rest, events);
        assert forall|value: StatusResultValue| #[trigger] reported(used, value) implies value
            == StatusResultValue::Skipped by {
            let i = choose|i: int| 0 <= i < used.len() && finished(#[trigger] used[i], value);
            assert(used[i] == events[i]);
        }
        assert(!reported(used, StatusResultValue::Error));
        assert(!reported(used, StatusResultValue::Passed));
    }
}

} // verus!
