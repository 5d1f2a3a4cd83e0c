//! What a run of each kind of step shows, asks for and yields, in terms of the runs of its parts.

use vstd::prelude::*;

use crate::status::SingleStatusResult;
use crate::step::{Runnable, Step};
use crate::trace::Event;
#[allow(unused_imports)]
use crate::context::Place;
#[allow(unused_imports)]
use crate::laws::values::{lemma_with_value, lemma_with_values};
#[allow(unused_imports)]
use crate::logs::logs_text;
#[allow(unused_imports)]
use crate::message::Shown;
#[allow(unused_imports)]
use crate::status::{Collected, Counts, StatusResultValue};
#[allow(unused_imports)]
use crate::text::{decimal, digit, joined};
#[allow(unused_imports)]
use crate::trace::{
    background_stop, run_foreground, run_one, run_steps, sequence_end, single_end, trace, Deed,
    Item, Progress,
};

verus! {

/// Two digits of a number below one hundred.
pub open spec fn pair(n: int) -> Seq<char> {
    seq![digit((n / 10) as nat), digit((n % 10) as nat)]
}

/// What stands at the beginning of the lines of a step: the time of day at which it was entered,
/// how many top-level steps failed, passed and remain, and the names of the steps.
pub open spec fn line_head(timestamp: i64, counts: Counts, names: Seq<Seq<char>>) -> Seq<char> {
    let second = timestamp as int % 86_400;
    let time = pair(second / 3_600) + ":"@ + pair(second / 60 % 60) + ":"@ + pair(second % 60);
    let error = decimal(counts.error as nat);
    let ok = decimal(counts.ok as nat);
    let remaining = decimal(counts.remaining as nat);
    "["@ + time + "; "@ + ("E:"@ + error + ",O:"@ + ok + ",R:"@ + remaining) + "]: "@ + joined(
        names,
        " ❯ "@,
    )
}

/// The time from `started` to `now`, none if the clock ran backwards.
pub open spec fn time_between(started: u64, now: u64) -> u64 {
    if started <= now {
        (now - started) as u64
    } else {
        0
    }
}

/// One entry, if the condition holds.
pub open spec fn optional<C>(condition: bool, item: Item<C>) -> Seq<Item<C>> {
    if condition {
        seq![item]
    } else {
        Seq::empty()
    }
}

/// A single command is announced if command lines are to be shown, and prompted for; it is run; its
/// value and the time that it took are shown; and so are its logs, if it left any, and failed or
/// logs were asked for. The result holds its value, and its context if its logs were shown.
#[verifier::rlimit(50)]
pub proof fn single_commands_are_run<C: Runnable>(
    place: Place,
    name: String,
    command: C,
    counts: Counts,
    timestamp: i64,
    started: u64,
    status: SingleStatusResult,
    now: u64,
    rest: Seq<Event>,
)
    ensures
        ({
            let events = seq![
                Event::Clock { timestamp, nanos: started },
                Event::Finished { status, nanos: now },
            ] + rest;
            let run = run_one(place, Step::Single { name, command }, counts, events);
            let names = place.prefix.push(name@);
            let head = line_head(timestamp, counts, names);
            let context = joined(names, " ❯ "@);
            let failed = status.value == StatusResultValue::Error;
            let boxed = (failed || place.flags.logs) && status.logs@.len() > 0;
            &&& run.trace == optional(
                place.flags.commands || place.flags.dry_run,
                Item::Show(Shown::Announce { head, description: command.described() }),
            ) + seq![
                Item::Show(Shown::Prompt { head }),
                Item::Do(Deed::Run { command }),
                Item::Show(
                    Shown::Outcome { value: status.value, nanos: time_between(started, now) },
                ),
            ] + optional(boxed, Item::Show(Shown::LogBox { context, logs: status.logs@ }))
            &&& run.end matches Some((collected, left))
            &&& left == rest
            &&& collected.values == seq![status.value]
            &&& collected.failed == if boxed {
                seq![context]
            } else {
                Seq::empty()
            }
        }),
{
    let clock = Event::Clock { timestamp, nanos: started };
    let finished = Event::Finished { status, nanos: now };
    let events = seq![clock, finished] + rest;
    let run = run_one(place, Step::Single { name, command }, counts, events);
    assert(events.drop_first() =~= seq![finished] + rest);
    assert(events.drop_first().drop_first() =~= rest);
    let names = place.prefix.push(name@);
    let head = line_head(timestamp, counts, names);
    let context = joined(names, " ❯ "@);
    let failed = status.value == StatusResultValue::Error;
    let boxed = (failed || place.flags.logs) && status.logs@.len() > 0;
    assert(run.trace =~= optional(
        place.flags.commands || place.flags.dry_run,
        Item::Show(Shown::Announce { head, description: command.described() }),
    ) + seq![
        Item::Show(Shown::Prompt { head }),
        Item::Do(Deed::Run { command }),
        Item::Show(Shown::Outcome { value: status.value, nanos: time_between(started, now) }),
    ] + optional(boxed, Item::Show(Shown::LogBox { context, logs: status.logs@ })));
    if let Some((collected, left)) = run.end {
        assert(collected.values =~= seq![status.value]);
        if boxed {
            assert(collected.failed =~= seq![context]);
        }
    }
}

/// A collection is opened, its steps are run, and it is closed, with the counts, the values and the
/// time that it took. It yields what its steps yield.
pub proof fn collections_are_opened_and_closed<C: Runnable>(
    place: Place,
    name: String,
    steps: Vec<Step<C>>,
    counts: Counts,
    timestamp: i64,
    started: u64,
    later: i64,
    now: u64,
    events: Seq<Event>,
    rest: Seq<Event>,
)
    requires
        ({
            let here = Place { flags: place.flags, prefix: place.prefix.push(name@) };
            let run = run_steps(here, steps@, counts, Collected::empty(), events);
            run.end matches Some((_, left)) && left == seq![
                Event::Clock { timestamp: later, nanos: now },
            ] + rest
        }),
    ensures
        ({
            let here = Place { flags: place.flags, prefix: place.prefix.push(name@) };
            let inner = run_steps(here, steps@, counts, Collected::empty(), events);
            let run = run_one(
                place,
                Step::Multiple { name, steps },
                counts,
                seq![Event::Clock { timestamp, nanos: started }] + events,
            );
            &&& inner.end matches Some(((collected, counted), _))
            &&& run.trace == seq![
                Item::Show(Shown::Open { head: line_head(timestamp, counts, here.prefix) }),
            ] + inner.trace + seq![
                Item::Do(Deed::ReadClock),
                Item::Show(
                    Shown::Close {
                        head: line_head(timestamp, counted, here.prefix),
                        values: collected.values,
                        nanos: time_between(started, now),
                    },
                ),
            ]
            &&& run.end == Some((collected, rest))
        }),
{
    let here = place.child(name@);
    let clock = Event::Clock { timestamp, nanos: started };
    let all = seq![clock] + events;
    assert(all.drop_first() =~= events);
    let inner = run_steps(here, steps@, counts, Collected::empty(), events);
    let run = run_one(place, Step::Multiple { name, steps }, counts, all);
    if let Some(((collected, counted), left)) = inner.end {
        assert(left.drop_first() =~= rest);
        assert(run.trace =~= seq![
            Item::<C>::Show(Shown::Open { head: line_head(timestamp, counts, here.prefix) }),
        ] + inner.trace + seq![
            Item::Do(Deed::ReadClock),
            Item::Show(
                Shown::Close {
                    head: line_head(timestamp, counted, here.prefix),
                    values: collected.values,
                    nanos: time_between(started, now),
                },
            ),
        ]);
    }
}

/// With a background command, that is shown and started, the foreground step is run, the background
/// command is stopped, waited for, and its value shown. Its logs are shown if there are any, and
/// either part failed or logs were asked for. The context is recorded last if the background
/// command failed, whatever came of the foreground step, and else nothing is recorded but what the
/// foreground step records. Its value joins those of the foreground step.
#[verifier::rlimit(50)]
pub proof fn background_commands_run_beside_the_foreground<C: Runnable>(
    place: Place,
    name: String,
    background: C,
    foreground: Box<Step<C>>,
    counts: Counts,
    timestamp: i64,
    started: u64,
    events: Seq<Event>,
    stdout: Vec<u8>,
    stderr: Vec<u8>,
    status: SingleStatusResult,
    now: u64,
    rest: Seq<Event>,
)
    requires
        ({
            let here = Place { flags: place.flags, prefix: place.prefix.push(name@) };
            run_one(here, *foreground, counts, events).end matches Some((_, left)) && left == seq![
                Event::Output { stdout, stderr },
                Event::Finished { status, nanos: now },
            ] + rest
        }),
    ensures
        ({
            let here = Place { flags: place.flags, prefix: place.prefix.push(name@) };
            let inner = run_one(here, *foreground, counts, events);
            let run = run_one(
                place,
                Step::WithBackground { name, background, foreground },
                counts,
                seq![Event::Clock { timestamp, nanos: started }, Event::Started] + events,
            );
            let head = line_head(timestamp, counts, here.prefix);
            let context = joined(here.prefix, " ❯ "@);
            let command = if place.flags.commands || place.flags.dry_run {
                Some(background.described())
            } else {
                None
            };
            let failed = status.value == StatusResultValue::Error;
            let logs = logs_text(stdout@, stderr@);
            &&& inner.end matches Some((within, _))
            &&& run.end matches Some((collected, left))
            &&& run.trace == seq![
                Item::Show(Shown::Open { head }),
                Item::Show(Shown::Background { head, command }),
                Item::Do(Deed::Start { command: background, settle_millis: 6_000 }),
                Item::Do(Deed::ReadClock),
            ] + inner.trace + seq![
                Item::Do(Deed::Stop),
                Item::Show(Shown::Waiting { head }),
                Item::Do(Deed::Await),
                Item::Show(Shown::Finished { head, value: status.value }),
            ] + optional(
                (failed || within.values.contains(StatusResultValue::Error) || place.flags.logs)
                    && logs.len() > 0,
                Item::Show(Shown::LogBox { context, logs }),
            )
            &&& left == rest
            &&& failed ==> collected.failed == within.failed.push(context)
            &&& !failed ==> collected.failed == within.failed
            &&& forall|value: StatusResultValue| #[trigger]
                collected.values.contains(value) == (within.values.contains(value) || value
                    == status.value)
        }),
{
    let here = place.child(name@);
    let all = seq![Event::Clock { timestamp, nanos: started }, Event::Started] + events;
    assert(all.drop_first() =~= seq![Event::Started] + events);
    assert(all.drop_first().drop_first() =~= events);
    let inner = run_one(here, *foreground, counts, events);
    let step = Step::WithBackground { name, background, foreground };
    let run = run_one(place, step, counts, all);
    let head = line_head(timestamp, counts, here.prefix);
    let context = joined(here.prefix, " ❯ "@);
    let command = if place.flags.commands || place.flags.dry_run {
        Some(background.described())
    } else {
        None
    };
    let failed = status.value == StatusResultValue::Error;
    let logs = logs_text(stdout@, stderr@);
    if let Some((within, stopping)) = inner.end {
        let finished = Event::Finished { status, nanos: now };
        assert(stopping.drop_first() =~= seq![finished] + rest);
        assert(stopping.drop_first().drop_first() =~= rest);
        lemma_with_value(within.values, status.value);
        assert(run.trace =~= seq![
            Item::Show(Shown::Open { head }),
            Item::Show(Shown::Background { head, command }),
            Item::Do(Deed::Start { command: background, settle_millis: 6_000 }),
            Item::Do(Deed::ReadClock),
        ] + inner.trace + seq![
            Item::Do(Deed::Stop),
            Item::Show(Shown::Waiting { head }),
            Item::Do(Deed::Await),
            Item::Show(Shown::Finished { head, value: status.value }),
        ] + optional(
            (failed || within.values.contains(StatusResultValue::Error) || place.flags.logs)
                && logs.len() > 0,
            Item::Show(Shown::LogBox { context, logs }),
        ));
    }
}

/// Running no steps asks for nothing, and leaves everything as it is.
pub proof fn no_steps_do_nothing<C: Runnable>(
    here: Place,
    counts: Counts,
    collected: Collected,
    events: Seq<Event>,
)
    ensures
        ({
            let run = run_steps(here, Seq::<Step<C>>::empty(), counts, collected, events);
            &&& run.trace == Seq::<Item<C>>::empty()
            &&& run.end == Some(((collected, counts), events))
        }),
{
}

/// Running one step is reading the clocks and running that step. The step counts as failed or
/// passed, and as remaining no more, exactly if it is a top-level one.
pub proof fn one_step_is_run<C: Runnable>(
    here: Place,
    step: Step<C>,
    counts: Counts,
    events: Seq<Event>,
)
    ensures
        ({
            let inner = run_one(here, step, counts, events);
            let run = run_steps(here, seq![step], counts, Collected::empty(), events);
            &&& run.trace == seq![Item::Do(Deed::ReadClock)] + inner.trace
            &&& run.end is Some == inner.end is Some
            &&& (inner.end matches Some((within, left)) ==> {
                &&& run.end matches Some(((collected, counted), rest))
                &&& rest == left
                &&& collected.failed == within.failed
                &&& forall|value: StatusResultValue| #[trigger]
                    collected.values.contains(value) == within.values.contains(value)
                &&& here.prefix.len() != 1 ==> counted == counts
                &&& here.prefix.len() == 1 ==> {
                    let failed = within.values.contains(StatusResultValue::Error);
                    &&& counted.remaining == counts.remaining - 1
                    &&& counted.error == counts.error + if failed {
                        1int
                    } else {
                        0
                    }
                    &&& counted.ok == counts.ok + if failed {
                        0int
                    } else {
                        1
                    }
                }
            })
        }),
{
    let inner = run_one(here, step, counts, events);
    let run = run_steps(here, seq![step], counts, Collected::empty(), events);
    let read = seq![Item::<C>::Do(Deed::ReadClock)];
    assert(seq![step].drop_first() =~= Seq::empty());
    if let Some((within, left)) = inner.end {
        lemma_with_values(Seq::empty(), within.values);
        let counts2 = counts.after(here.prefix.len(), within.has_error());
        no_steps_do_nothing::<C>(here, counts2, Collected::empty().absorb(within), left);
        assert(run.trace =~= read + inner.trace);
        if let Some(((collected, _), _)) = run.end {
            assert(collected.failed =~= within.failed);
        }
    }
}

/// What was collected before steps are run is kept, and comes before what is collected in their
/// course; beyond that, it makes no difference.
pub proof fn earlier_results_are_kept<C: Runnable>(
    here: Place,
    steps: Seq<Step<C>>,
    counts: Counts,
    earlier: Collected,
    events: Seq<Event>,
)
    ensures
        ({
            let run = run_steps(here, steps, counts, earlier, events);
            let alone = run_steps(here, steps, counts, Collected::empty(), events);
            &&& run.trace == alone.trace
            &&& run.end is Some == alone.end is Some
            &&& (alone.end matches Some(((since, counted), left)) ==> {
                &&& run.end matches Some(((collected, counted2), left2))
                &&& counted2 == counted
                &&& left2 == left
                &&& collected.failed == earlier.failed + since.failed
                &&& forall|value: StatusResultValue| #[trigger]
                    collected.values.contains(value) == (earlier.values.contains(value)
                        || since.values.contains(value))
            })
        }),
    decreases steps.len(),
{
    if steps.len() == 0 {
        assert(earlier.failed + Seq::<Seq<char>>::empty() =~= earlier.failed);
    } else if let Some((sub, left)) = run_one(here, steps[0], counts, events).end {
        let counts2 = counts.after(here.prefix.len(), sub.has_error());
        let others = steps.drop_first();
        let (a, b) = (earlier.absorb(sub), Collected::empty().absorb(sub));
        lemma_with_values(earlier.values, sub.values);
        lemma_with_values(Seq::empty(), sub.values);
        assert(b.failed =~= sub.failed);
        if !(sub.has_error() && !here.flags.keep_going) {
            earlier_results_are_kept(here, others, counts2, a, left);
            earlier_results_are_kept(here, others, counts2, b, left);
            if let Some(((since, _), _)) = run_steps(
                here,
                others,
                counts2,
                Collected::empty(),
                left,
            ).end {
                assert((earlier.failed + sub.failed) + since.failed =~= earlier.failed + (sub.failed
                    + since.failed));
            }
        }
    }
}

/// Steps followed by others are run like that: first the former, and then, unless one of them
/// failed and the run is not to be continued after errors, the latter, with the counts that the
/// former have left.
pub proof fn steps_are_run_in_turn<C: Runnable>(
    here: Place,
    first: Seq<Step<C>>,
    second: Seq<Step<C>>,
    counts: Counts,
    earlier: Collected,
    events: Seq<Event>,
)
    requires
        !earlier.values.contains(StatusResultValue::Error),
    ensures
        ({
            let run = run_steps(here, first + second, counts, earlier, events);
            let one = run_steps(here, first, counts, earlier, events);
            match one.end {
                None => run == one,
                Some(((collected, counted), left)) => {
                    let failed = collected.values.contains(StatusResultValue::Error);
                    if failed && !here.flags.keep_going {
                        run == one
                    } else {
                        let two = run_steps(here, second, counted, collected, left);
                        run.trace == one.trace + two.trace && run.end == two.end
                    }
                },
            }
        }),
{
    lemma_steps_in_turn(here, first, second, counts, earlier, events);
}

/// The same, where something may have failed before if the run is to be continued.
proof fn lemma_steps_in_turn<C: Runnable>(
    here: Place,
    first: Seq<Step<C>>,
    second: Seq<Step<C>>,
    counts: Counts,
    earlier: Collected,
    events: Seq<Event>,
)
    requires
        !earlier.values.contains(StatusResultValue::Error) || here.flags.keep_going,
    ensures
        ({
            let run = run_steps(here, first + second, counts, earlier, events);
            let one = run_steps(here, first, counts, earlier, events);
            match one.end {
                None => run == one,
                Some(((collected, counted), left)) => {
                    let failed = collected.values.contains(StatusResultValue::Error);
                    if failed && !here.flags.keep_going {
                        run == one
                    } else {
                        let two = run_steps(here, second, counted, collected, left);
                        run.trace == one.trace + two.trace && run.end == two.end
                    }
                },
            }
        }),
    decreases first.len(),
{
    let all = first + second;
    let run = run_steps(here, all, counts, earlier, events);
    let one = run_steps(here, first, counts, earlier, events);
    if first.len() == 0 {
        assert(all =~= second);
        let two = run_steps(here, second, counts, earlier, events);
        assert(one.trace + two.trace =~= two.trace);
    } else {
        assert(all[0] == first[0]);
        assert(all.drop_first() =~= first.drop_first() + second);
        let inner = run_one(here, first[0], counts, events);
        let opening = seq![Item::<C>::Do(Deed::ReadClock)] + inner.trace;
        if let Some((sub, left)) = inner.end {
            lemma_with_values(earlier.values, sub.values);
            if !(sub.has_error() && !here.flags.keep_going) {
                let counts2 = counts.after(here.prefix.len(), sub.has_error());
                let collected2 = earlier.absorb(sub);
                lemma_steps_in_turn(here, first.drop_first(), second, counts2, collected2, left);
                let more = run_steps(here, first.drop_first(), counts2, collected2, left);
                if let Some(((collected, counted), left2)) = more.end {
                    let two = run_steps(here, second, counted, collected, left2);
                    assert(opening + (more.trace + two.trace) =~= (opening + more.trace)
                        + two.trace);
                }
            }
        }
    }
}

/// A run that has come to its end tells so, with its result, as the last thing; one that has not
/// tells nothing of the kind.
pub proof fn finished_runs_are_done<C: Runnable>(
    place: Place,
    step: Step<C>,
    counts: Counts,
    events: Seq<Event>,
)
    ensures
        ({
            let run = run_one(place, step, counts, events);
            let whole = trace(place, step, counts, events);
            &&& run.end is None ==> whole == run.trace
            &&& run.end matches Some((result, _)) ==> {
                &&& whole.last() == Item::<C>::Do(Deed::Done { result })
                &&& whole.drop_last() == run.trace
            }
        }),
{
    let run = run_one(place, step, counts, events);
    if run.end is Some {
        assert(trace(place, step, counts, events).drop_last() =~= run.trace);
    }
}

} // verus!
