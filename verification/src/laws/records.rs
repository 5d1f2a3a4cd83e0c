//! The contexts that a run records.

use vstd::prelude::*;

use crate::step::{Runnable, Step};
use crate::trace::Event;
#[allow(unused_imports)]
use crate::context::Place;
#[allow(unused_imports)]
use crate::laws::values::{lemma_with_value, lemma_with_values};
#[allow(unused_imports)]
use crate::status::{Collected, Counts, StatusResultValue};
#[allow(unused_imports)]
use crate::trace::{background_stop, run_one, run_steps};

verus! {

/// Whether `inner` is a place inside of `place`.
pub open spec fn is_inside(inner: Place, place: Place) -> bool {
    place.prefix.len() < inner.prefix.len() && place.prefix.is_prefix_of(inner.prefix)
}

/// Whether `text` is that of a place inside of `place`.
pub open spec fn names_inside(text: Seq<char>, place: Place) -> bool {
    exists|inner: Place| #[trigger] is_inside(inner, place) && text == inner.text()
}

/// Whether all contexts are those of places inside of `place`, and whether there are none unless
/// something failed or logs were asked for.
pub open spec fn records_inside(collected: Collected, place: Place) -> bool {
    &&& forall|i: int|
        0 <= i < collected.failed.len() ==> names_inside(#[trigger] collected.failed[i], place)
    &&& collected.failed.len() > 0 ==> collected.has_error() || place.flags.logs
}

/// What is inside of a step is inside of the place of that step.
proof fn lemma_inside_child(text: Seq<char>, place: Place, name: Seq<char>)
    ensures
        names_inside(text, place.child(name)) ==> names_inside(text, place),
        names_inside(place.child(name).text(), place),
{
    let child = place.child(name);
    assert(place.prefix =~= child.prefix.subrange(0, place.prefix.len() as int));
    assert(is_inside(child, place));
    if names_inside(text, child) {
        let inner = choose|inner: Place| #[trigger]
            is_inside(inner, child) && text == inner.text();
        assert(place.prefix =~= inner.prefix.subrange(0, place.prefix.len() as int));
        assert(is_inside(inner, place));
    }
}

/// What a step records inside of a child of `place`.
proof fn lemma_records_of_child(collected: Collected, place: Place, name: Seq<char>)
    requires
        records_inside(collected, place.child(name)),
    ensures
        records_inside(collected, place),
{
    assert forall|i: int| 0 <= i < collected.failed.len() implies names_inside(
        #[trigger] collected.failed[i],
        place,
    ) by {
        lemma_inside_child(collected.failed[i], place, name);
    }
}

/// The contexts that a run of a step records.
proof fn lemma_records<C: Runnable>(
    place: Place,
    step: Step<C>,
    counts: Counts,
    events: Seq<Event>,
)
    ensures
        run_one(place, step, counts, events).end matches Some((collected, _)) ==> records_inside(
            collected,
            place,
        ),
    decreases step, 0nat,
{
    if let Some((collected, rest)) = run_one(place, step, counts, events).end {
        if let Event::Clock { timestamp, nanos } = events[0] {
            let entered = events.drop_first();
            match step {
                Step::Single { name, .. } => {
                    lemma_inside_child(Seq::empty(), place, name@);
                    if let Event::Finished { status, .. } = entered[0] {
                        lemma_with_value(Seq::empty(), status.value);
                    }
                },
                Step::Multiple { name, steps } => {
                    let here = place.child(name@);
                    lemma_steps_record(here, steps@, counts, Collected::empty(), entered);
                    lemma_records_of_child(collected, place, name@);
                },
                Step::WithBackground { name, foreground, .. } => {
                    let here = place.child(name@);
                    let started = entered.drop_first();
                    lemma_records(here, *foreground, counts, started);
                    if let Some((inner, stopping)) = run_one(
                        here,
                        *foreground,
                        counts,
                        started,
                    ).end {
                        lemma_records_of_child(inner, place, name@);
                        lemma_inside_child(Seq::empty(), place, name@);
                        if let Event::Finished { status, .. } = stopping.drop_first()[0] {
                            lemma_with_value(inner.values, status.value);
                        }
                    }
                },
            }
        }
    }
}

/// The contexts that a run of several steps records.
proof fn lemma_steps_record<C: Runnable>(
    here: Place,
    steps: Seq<Step<C>>,
    counts: Counts,
    collected: Collected,
    events: Seq<Event>,
)
    requires
        records_inside(collected, here),
    ensures
        run_steps(here, steps, counts, collected, events).end matches Some(((all, _), _))
            ==> records_inside(all, here),
    decreases steps, 0nat,
{
    if steps.len() > 0 {
        lemma_records(here, steps[0], counts, events);
        if let Some((sub, rest)) = run_one(here, steps[0], counts, events).end {
            let counts2 = counts.after(here.prefix.len(), sub.has_error());
            let collected2 = collected.absorb(sub);
            lemma_with_values(collected.values, sub.values);
            assert forall|i: int| 0 <= i < collected2.failed.len() implies names_inside(
                #[trigger] collected2.failed[i],
                here,
            ) by {
                if i < collected.failed.len() {
                    assert(collected2.failed[i] == collected.failed[i]);
                } else {
                    assert(collected2.failed[i] == sub.failed[i - collected.failed.len()]);
                }
            }
            if !(sub.has_error() && !here.flags.keep_going) {
                lemma_steps_record(here, steps.drop_first(), counts2, collected2, rest);
            }
        }
    }
}

/// A run records the contexts of steps inside of the place where it began, and none at all unless
/// a command failed or logs were asked for.
pub proof fn records_are_of_inner_steps<C: Runnable>(
    place: Place,
    step: Step<C>,
    counts: Counts,
    events: Seq<Event>,
)
    ensures
        run_one(place, step, counts, events).end matches Some((collected, _)) ==> {
            &&& forall|i: int|
                0 <= i < collected.failed.len() ==> names_inside(
                    #[trigger] collected.failed[i],
                    place,
                )
            &&& collected.failed.len() > 0 ==> collected.has_error() || place.flags.logs
        },
{
    lemma_records(place, step, counts, events);
}

} // verus!
