//! What a run does: the trace of everything it shows and asks for, as a function of the step and
//! of the events that come in from outside.

use vstd::prelude::*;

use crate::status::{SingleStatusResult, StepResult};
use crate::step::{Runnable, Step};
#[allow(unused_imports)]
use crate::clock::{clock_text, second_of_day};
#[allow(unused_imports)]
use crate::context::Place;
#[allow(unused_imports)]
use crate::logs::logs_text;
#[allow(unused_imports)]
use crate::message::{head_text, Shown};
#[allow(unused_imports)]
use crate::status::{Collected, Counts, StatusResultValue};

verus! {

/// How long to wait for a background command to start up.
pub const SETTLE_MILLIS: u64 = 6_000;

/// Something that happened outside, in reply to an [`Action`].
pub enum Event {
    /// The clocks were read: a Unix timestamp, and the nanoseconds since some fixed instant.
    Clock { timestamp: i64, nanos: u64 },
    /// A command has terminated; the second clock shows `nanos`.
    Finished { status: SingleStatusResult, nanos: u64 },
    /// A background command was started.
    Started,
    /// A background command was told to stop, and these are the streams that it left.
    Output { stdout: Vec<u8>, stderr: Vec<u8> },
}

/// Something to be done outside.
pub enum Action<C> {
    /// Read the clocks; the reply is [`Event::Clock`].
    ReadClock,
    /// Run a command to its end; the reply is [`Event::Finished`].
    Run { command: C },
    /// Start a command in the background, wait for some milliseconds, and collect its streams
    /// from then on; the reply is [`Event::Started`].
    Start { command: C, settle_millis: u64 },
    /// Stop the background command that was started last; the reply is [`Event::Output`].
    Stop,
    /// Wait for the end of the background command that was stopped last; the reply is
    /// [`Event::Finished`].
    Await,
    /// Nothing: the run is over.
    Done { result: StepResult },
}

/// The contents of an [`Action`].
pub enum Deed<C> {
    ReadClock,
    Run { command: C },
    Start { command: C, settle_millis: u64 },
    Stop,
    Await,
    Done { result: Collected },
}

impl<C> View for Action<C> {
    type V = Deed<C>;

    open spec fn view(&self) -> Deed<C> {
        match *self {
            Action::ReadClock => Deed::ReadClock,
            Action::Run { command } => Deed::Run { command },
            Action::Start { command, settle_millis } => Deed::Start { command, settle_millis },
            Action::Stop => Deed::Stop,
            Action::Await => Deed::Await,
            Action::Done { result } => Deed::Done { result: result@ },
        }
    }
}

/// One entry of a trace.
pub enum Item<C> {
    /// A message is shown.
    Show(Shown),
    /// Something is asked for.
    Do(Deed<C>),
}

/// How far a part of a run comes on a sequence of events: what it puts on the trace, and, if the
/// events take it to its end, what it yields and the events that are left.
pub struct Progress<C, T> {
    pub trace: Seq<Item<C>>,
    pub end: Option<(T, Seq<Event>)>,
}

impl<C, T> Progress<C, T> {
    /// A part that still waits for its next event.
    pub open spec fn waiting() -> Self {
        Progress { trace: Seq::empty(), end: None }
    }

    /// The same, after other entries.
    pub open spec fn after(self, items: Seq<Item<C>>) -> Self {
        Progress { trace: items + self.trace, end: self.end }
    }
}

/// The time between two readings of a clock, none if it ran backwards.
pub open spec fn elapsed(started: u64, now: u64) -> u64 {
    if now >= started {
        (now - started) as u64
    } else {
        0
    }
}

/// The time of day that the events begin with, as shown in the head of each line of a step.
pub open spec fn entry_time(timestamp: i64) -> Seq<char> {
    clock_text(second_of_day(timestamp as int))
}

/// What is shown before a command is run.
pub open spec fn single_opening<C: Runnable>(
    here: Place,
    time: Seq<char>,
    counts: Counts,
    command: C,
) -> Seq<Item<C>> {
    let head = head_text(time, counts, here);
    let prompt = seq![Item::Show(Shown::Prompt { head })];
    if here.flags.shows_commands() {
        seq![Item::Show(Shown::Announce { head, description: command.described() })] + prompt
    } else {
        prompt
    }
}

/// Whether logs are shown: if there are any, and something failed or they were asked for.
pub open spec fn shows_logs(here: Place, failed: bool, logs: Seq<char>) -> bool {
    (failed || here.flags.logs) && logs.len() > 0
}

/// The box around the logs, if they are shown.
pub open spec fn log_box<C>(here: Place, failed: bool, logs: Seq<char>) -> Seq<Item<C>> {
    if shows_logs(here, failed, logs) {
        seq![Item::Show(Shown::LogBox { context: here.text(), logs })]
    } else {
        Seq::empty()
    }
}

/// What a single command adds up to. Its context is recorded whenever its logs are shown.
pub open spec fn single_result(
    here: Place,
    value: StatusResultValue,
    logs: Seq<char>,
) -> Collected {
    let failed = value == StatusResultValue::Error;
    if shows_logs(here, failed, logs) {
        Collected::empty().record(here.text()).insert(value)
    } else {
        Collected::empty().insert(value)
    }
}

/// A command that is running.
pub open spec fn single_end<C>(here: Place, started: u64, events: Seq<Event>) -> Progress<
    C,
    Collected,
> {
    if events.len() == 0 {
        Progress::waiting()
    } else {
        match events[0] {
            Event::Finished { status, nanos } => {
                let failed = status.value == StatusResultValue::Error;
                let took = elapsed(started, nanos);
                let outcome = Shown::Outcome { value: status.value, nanos: took };
                Progress {
                    trace: seq![Item::Show(outcome)] + log_box(here, failed, status.logs@),
                    end: Some(
                        (single_result(here, status.value, status.logs@), events.drop_first()),
                    ),
                }
            },
            _ => Progress::waiting(),
        }
    }
}

/// A collection of sub-steps that has completed.
pub open spec fn sequence_end<C>(
    here: Place,
    time: Seq<char>,
    started: u64,
    counts: Counts,
    collected: Collected,
    events: Seq<Event>,
) -> Progress<C, Collected> {
    if events.len() == 0 {
        Progress::waiting()
    } else {
        match events[0] {
            Event::Clock { nanos, .. } => Progress {
                trace: seq![
                    Item::Show(
                        Shown::Close {
                            head: head_text(time, counts, here),
                            values: collected.values,
                            nanos: elapsed(started, nanos),
                        },
                    ),
                ],
                end: Some((collected, events.drop_first())),
            },
            _ => Progress::waiting(),
        }
    }
}

/// What is shown and asked for to start a background command.
pub open spec fn background_opening<C: Runnable>(
    here: Place,
    time: Seq<char>,
    counts: Counts,
    background: C,
) -> Seq<Item<C>> {
    let head = head_text(time, counts, here);
    let command = if here.flags.shows_commands() {
        Some(background.described())
    } else {
        None
    };
    seq![
        Item::Show(Shown::Open { head }),
        Item::Show(Shown::Background { head, command }),
        Item::Do(Deed::Start { command: background, settle_millis: SETTLE_MILLIS }),
    ]
}

/// What a step with a background command adds up to. The background command counts like the
/// others; its context is recorded if it failed.
pub open spec fn background_result(
    here: Place,
    foreground: Collected,
    value: StatusResultValue,
) -> Collected {
    if value == StatusResultValue::Error {
        foreground.record(here.text()).insert(value)
    } else {
        foreground.insert(value)
    }
}

/// A background command whose streams were collected, and which is about to terminate.
pub open spec fn background_end<C>(
    here: Place,
    time: Seq<char>,
    counts: Counts,
    foreground: Collected,
    logs: Seq<char>,
    events: Seq<Event>,
) -> Progress<C, Collected> {
    if events.len() == 0 {
        Progress::waiting()
    } else {
        match events[0] {
            Event::Finished { status, .. } => {
                let failed = status.value == StatusResultValue::Error || foreground.has_error();
                let head = head_text(time, counts, here);
                Progress {
                    trace: seq![Item::Show(Shown::Finished { head, value: status.value })]
                        + log_box(here, failed, logs),
                    end: Some(
                        (background_result(here, foreground, status.value), events.drop_first()),
                    ),
                }
            },
            _ => Progress::waiting(),
        }
    }
}

/// A background command that was told to stop.
pub open spec fn background_stop<C>(
    here: Place,
    time: Seq<char>,
    counts: Counts,
    foreground: Collected,
    events: Seq<Event>,
) -> Progress<C, Collected> {
    if events.len() == 0 {
        Progress::waiting()
    } else {
        match events[0] {
            Event::Output { stdout, stderr } => {
                let head = head_text(time, counts, here);
                background_end(
                    here,
                    time,
                    counts,
                    foreground,
                    logs_text(stdout@, stderr@),
                    events.drop_first(),
                ).after(seq![Item::Show(Shown::Waiting { head }), Item::Do(Deed::Await)])
            },
            _ => Progress::waiting(),
        }
    }
}

/// A step with a background command that is being started: once it was, the foreground step is
/// run, and then the background command is stopped.
pub open spec fn run_foreground<C: Runnable>(
    here: Place,
    time: Seq<char>,
    counts: Counts,
    foreground: Step<C>,
    events: Seq<Event>,
) -> Progress<C, Collected>
    decreases foreground, 1nat,
{
    if events.len() == 0 || !(events[0] is Started) {
        Progress::waiting()
    } else {
        let run = run_one(here, foreground, counts, events.drop_first());
        match run.end {
            None => run.after(seq![Item::Do(Deed::ReadClock)]),
            Some((collected, rest)) => {
                background_stop(here, time, counts, collected, rest).after(
                    seq![Item::Do(Deed::ReadClock)] + run.trace + seq![Item::Do(Deed::Stop)],
                )
            },
        }
    }
}

/// The sub-steps of a step, run one after the other. A sub-step that failed ends it, unless the
/// run is to be continued after an error. Each completion is counted.
pub open spec fn run_steps<C: Runnable>(
    here: Place,
    steps: Seq<Step<C>>,
    counts: Counts,
    collected: Collected,
    events: Seq<Event>,
) -> Progress<C, (Collected, Counts)>
    decreases steps, 0nat,
{
    if steps.len() == 0 {
        Progress { trace: Seq::empty(), end: Some(((collected, counts), events)) }
    } else {
        let run = run_one(here, steps[0], counts, events);
        let trace = seq![Item::Do(Deed::ReadClock)] + run.trace;
        match run.end {
            None => Progress { trace, end: None },
            Some((sub, rest)) => {
                let collected = collected.absorb(sub);
                let counts = counts.after(here.prefix.len(), sub.has_error());
                if sub.has_error() && !here.flags.keep_going {
                    Progress { trace, end: Some(((collected, counts), rest)) }
                } else {
                    run_steps(here, steps.drop_first(), counts, collected, rest).after(trace)
                }
            },
        }
    }
}

/// A run of `step` at `place`, from the reading of the clocks on.
pub open spec fn run_one<C: Runnable>(
    place: Place,
    step: Step<C>,
    counts: Counts,
    events: Seq<Event>,
) -> Progress<C, Collected>
    decreases step, 0nat,
{
    if events.len() == 0 {
        Progress::waiting()
    } else {
        match events[0] {
            Event::Clock { timestamp, nanos } => {
                let time = entry_time(timestamp);
                let rest = events.drop_first();
                match step {
                    Step::Single { name, command } => {
                        let here = place.child(name@);
                        single_end(here, nanos, rest).after(
                            single_opening(here, time, counts, command) + seq![
                                Item::Do(Deed::Run { command }),
                            ],
                        )
                    },
                    Step::Multiple { name, steps } => {
                        let here = place.child(name@);
                        let open = Shown::Open { head: head_text(time, counts, here) };
                        let run = run_steps(here, steps@, counts, Collected::empty(), rest);
                        match run.end {
                            None => Progress {
                                trace: seq![Item::Show(open)] + run.trace,
                                end: None,
                            },
                            Some(((collected, counts), rest)) => {
                                sequence_end(here, time, nanos, counts, collected, rest).after(
                                    seq![Item::Show(open)] + run.trace + seq![
                                        Item::Do(Deed::ReadClock),
                                    ],
                                )
                            },
                        }
                    },
                    Step::WithBackground { name, background, foreground } => {
                        let here = place.child(name@);
                        run_foreground(here, time, counts, *foreground, rest).after(
                            background_opening(here, time, counts, background),
                        )
                    },
                }
            },
            _ => Progress::waiting(),
        }
    }
}

/// The whole trace of a run of `step` at `place`, as far as the events take it.
pub open spec fn trace<C: Runnable>(
    place: Place,
    step: Step<C>,
    counts: Counts,
    events: Seq<Event>,
) -> Seq<Item<C>> {
    let run = run_one(place, step, counts, events);
    match run.end {
        None => run.trace,
        Some((result, _)) => run.trace + seq![Item::Do(Deed::Done { result })],
    }
}

} // verus!
