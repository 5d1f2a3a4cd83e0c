//! The step runner: from what has happened to what is to be done next.

use vstd::prelude::*;
use vstd::string::*;

use crate::clock::time_of_day;
use crate::context::Context;
use crate::logs::format_logs;
use crate::message::{head, Message};
use crate::status::{SingleStatusResult, Status, StatusResultValue, StepResult};
use crate::step::{Runnable, Step};
use crate::trace::{Action, Event, SETTLE_MILLIS};
#[allow(unused_imports)]
use crate::context::Place;
#[allow(unused_imports)]
use crate::logs::logs_text;
#[allow(unused_imports)]
use crate::message::{head_text, Shown};
#[allow(unused_imports)]
use crate::status::{Collected, Counts};
#[allow(unused_imports)]
use crate::trace::{
    background_end, background_opening, background_result, background_stop, elapsed, entry_time,
    log_box, run_foreground, run_one, run_steps, sequence_end, shows_logs, single_end,
    single_opening, single_result, trace, Deed, Item, Progress,
};
#[allow(unused_imports)]
use vstd::utf8::valid_utf8;

verus! {

/// A step that waits for one of its sub-steps.
enum Frame<C> {
    /// A collection of sub-steps, of which `rest` are still to be run after the current one.
    Sequence {
        context: Context,
        time: String,
        started: u64,
        status: Status,
        result: StepResult,
        rest: Vec<Step<C>>,
    },
    /// A step with a background command, while its foreground step is run.
    Foreground { context: Context, time: String, status: Status },
}

/// What a run waits for.
enum State<C> {
    /// The clocks, to enter a step inside of `context`.
    Entering { context: Context, step: Step<C>, status: Status },
    /// The end of a single command.
    Running { context: Context, started: u64, status: Status },
    /// The start of a background command.
    Launching { context: Context, time: String, status: Status, foreground: Box<Step<C>> },
    /// The streams of a background command.
    Stopping { context: Context, time: String, status: Status, result: StepResult },
    /// The end of a background command.
    Awaiting {
        context: Context,
        time: String,
        status: Status,
        result: StepResult,
        logs: String,
    },
    /// The clocks, to leave a collection of sub-steps.
    Closing {
        context: Context,
        time: String,
        started: u64,
        status: Status,
        result: StepResult,
    },
    /// Nothing: the run is over.
    Over,
}

/// A run of a step, between two events.
pub struct StepRunner<C> {
    state: State<C>,
    frames: Vec<Frame<C>>,
}

/// What a run shows, and what it asks for next.
pub struct Output<C> {
    pub messages: Vec<Message>,
    pub action: Action<C>,
}

/// The entries that showing `messages` puts on the trace.
pub open spec fn shown<C>(messages: Seq<Message>) -> Seq<Item<C>> {
    Seq::new(messages.len(), |i: int| Item::Show(messages[i]@))
}

impl<C> Output<C> {
    /// The entries that the output puts on the trace.
    pub open spec fn items(self) -> Seq<Item<C>> {
        shown(self.messages@) + seq![Item::Do(self.action@)]
    }
}

impl<C> Frame<C> {
    /// Completions of top-level steps are still within what remains of them.
    spec fn wf(self) -> bool {
        match self {
            Frame::Sequence { context, status, result, rest, .. } => {
                &&& result.wf()
                &&& context.prefix@.len() >= 1
                &&& context.prefix@.len() == 1 ==> status@.remaining >= rest@.len() + 1
            },
            Frame::Foreground { context, status, .. } => {
                &&& context.prefix@.len() >= 1
                &&& context.prefix@.len() == 1 ==> status@.remaining >= 1
            },
        }
    }
}

impl<C> State<C> {
    spec fn wf(self) -> bool {
        match self {
            State::Entering { context, step, status } => context.prefix@.len() == 0
                ==> status@.remaining >= step.completions(),
            State::Running { context, status, .. } => context.prefix@.len() == 1
                ==> status@.remaining >= 1,
            State::Launching { context, status, .. } => {
                &&& context.prefix@.len() >= 1
                &&& context.prefix@.len() == 1 ==> status@.remaining >= 1
            },
            State::Stopping { context, status, result, .. } => {
                &&& result.wf()
                &&& context.prefix@.len() == 1 ==> status@.remaining >= 1
            },
            State::Awaiting { context, status, result, .. } => {
                &&& result.wf()
                &&& context.prefix@.len() == 1 ==> status@.remaining >= 1
            },
            State::Closing { result, .. } => result.wf(),
            State::Over => true,
        }
    }
}

/// The trace of a step that has come as far as `run`, inside of `frames`.
spec fn finish<C: Runnable>(frames: Seq<Frame<C>>, run: Progress<C, Collected>) -> Seq<Item<C>>
    decreases frames.len(), 1nat,
{
    match run.end {
        None => run.trace,
        Some((collected, rest)) => run.trace + give_back(frames, collected, rest),
    }
}

/// The trace from the point where a step inside of `frames` has completed.
spec fn give_back<C: Runnable>(
    frames: Seq<Frame<C>>,
    sub: Collected,
    events: Seq<Event>,
) -> Seq<Item<C>>
    decreases frames.len(), 0nat,
{
    if frames.len() == 0 {
        seq![Item::Do(Deed::Done { result: sub })]
    } else {
        match frames.last() {
            Frame::Sequence { context, time, started, status, result, rest } => {
                let collected = result@.absorb(sub);
                let counts = status@.after(context@.prefix.len(), sub.has_error());
                let run = if sub.has_error() && !context@.flags.keep_going {
                    Progress { trace: Seq::empty(), end: Some(((collected, counts), events)) }
                } else {
                    run_steps(context@, rest@, counts, collected, events)
                };
                match run.end {
                    None => run.trace,
                    Some(((collected, counts), events)) => run.trace + seq![
                        Item::Do(Deed::ReadClock),
                    ] + finish(
                        frames.drop_last(),
                        sequence_end(context@, time@, started, counts, collected, events),
                    ),
                }
            },
            Frame::Foreground { context, time, status } => seq![Item::Do(Deed::Stop)] + finish(
                frames.drop_last(),
                background_stop(context@, time@, status@, sub, events),
            ),
        }
    }
}

/// Whether the event is a reply to the action. What a background command leaves has to be text.
pub open spec fn answers<C>(event: Event, action: Deed<C>) -> bool {
    match action {
        Deed::ReadClock => event is Clock,
        Deed::Run { .. } => event is Finished,
        Deed::Start { .. } => event is Started,
        Deed::Stop => event matches Event::Output { stdout, stderr } && valid_utf8(stdout@)
            && valid_utf8(stderr@),
        Deed::Await => event is Finished,
        Deed::Done { .. } => false,
    }
}

impl<C: Runnable> StepRunner<C> {
    /// The run can go on.
    pub closed spec fn wf(self) -> bool {
        &&& self.state.wf()
        &&& forall|i: int| 0 <= i < self.frames@.len() ==> (#[trigger] self.frames@[i]).wf()
    }

    /// Whether the event is a reply to what the run has asked for last.
    pub closed spec fn awaits(self, event: Event) -> bool {
        match self.state {
            State::Entering { .. } => event is Clock,
            State::Running { .. } => event is Finished,
            State::Launching { .. } => event is Started,
            State::Stopping { .. } => event matches Event::Output { stdout, stderr }
                && valid_utf8(stdout@) && valid_utf8(stderr@),
            State::Awaiting { .. } => event is Finished,
            State::Closing { .. } => event is Clock,
            State::Over => false,
        }
    }

    /// The rest of the trace, on the events to come.
    pub closed spec fn resume(self, events: Seq<Event>) -> Seq<Item<C>> {
        match self.state {
            State::Entering { context, step, status } => finish(
                self.frames@,
                run_one(context@, step, status@, events),
            ),
            State::Running { context, started, .. } => finish(
                self.frames@,
                single_end(context@, started, events),
            ),
            State::Launching { context, time, status, foreground } => finish(
                self.frames@,
                run_foreground(context@, time@, status@, *foreground, events),
            ),
            State::Stopping { context, time, status, result } => finish(
                self.frames@,
                background_stop(context@, time@, status@, result@, events),
            ),
            State::Awaiting { context, time, status, result, logs } => finish(
                self.frames@,
                background_end(context@, time@, status@, result@, logs@, events),
            ),
            State::Closing { context, time, started, status, result } => finish(
                self.frames@,
                sequence_end(context@, time@, started, status@, result@, events),
            ),
            State::Over => Seq::empty(),
        }
    }

    /// The run can go on from `self`, and waits for the reply to what `output` asks for.
    pub open spec fn ready(self, output: Output<C>) -> bool {
        &&& self.wf()
        &&& forall|event: Event| #[trigger]
            self.awaits(event) == answers(event, output.action@)
    }

    /// Goes on in the innermost enclosing step, after one of its sub-steps has completed.
    fn deliver(frames: Vec<Frame<C>>, messages: Vec<Message>, result: StepResult) -> (next: (
        Self,
        Output<C>,
    ))
        requires
            forall|i: int| 0 <= i < frames@.len() ==> (#[trigger] frames@[i]).wf(),
            result.wf(),
        ensures
            next.0.ready(next.1),
            forall|events: Seq<Event>|
                next.1.items() + #[trigger] next.0.resume(events) == shown::<C>(messages@)
                    + give_back(frames@, result@, events),
    {
        let ghost outer = frames@;
        let ghost sub = result@;
        let mut frames = frames;
        match frames.pop() {
            None => {
                let runner = StepRunner { state: State::Over, frames };
                let output = Output { messages, action: Action::Done { result } };
                assert forall|events: Seq<Event>|
                    output.items() + #[trigger] runner.resume(events) == shown::<C>(messages@)
                        + give_back(outer, sub, events) by {
                    assert(output.items() + runner.resume(events) =~= output.items());
                }
                (runner, output)
            },
            Some(frame) => {
                assert(frames@ =~= outer.drop_last());
                assert(outer.last() == frame);
                match frame {
                    Frame::Sequence { context, time, started, status, result: collected, rest } => {
                        Self::deliver_to_sequence(
                            Ghost(outer),
                            frames,
                            messages,
                            result,
                            context,
                            time,
                            started,
                            status,
                            collected,
                            rest,
                        )
                    },
                    Frame::Foreground { context, time, status } => {
                        let runner = StepRunner {
                            state: State::Stopping { context, time, status, result },
                            frames,
                        };
                        let output = Output { messages, action: Action::Stop };
                        assert forall|events: Seq<Event>|
                            output.items() + #[trigger] runner.resume(events) == shown::<C>(
                                messages@,
                            ) + give_back(outer, sub, events) by {
                            lemma_items(output, runner.resume(events));
                        }
                        (runner, output)
                    },
                }
            },
        }
    }

    /// Goes on in a collection of sub-steps, after one of them has completed.
    fn deliver_to_sequence(
        outer: Ghost<Seq<Frame<C>>>,
        frames: Vec<Frame<C>>,
        messages: Vec<Message>,
        sub: StepResult,
        context: Context,
        time: String,
        started: u64,
        status: Status,
        collected: StepResult,
        rest: Vec<Step<C>>,
    ) -> (next: (Self, Output<C>))
        requires
            outer@.len() > 0,
            frames@ == outer@.drop_last(),
            outer@.last() == (Frame::Sequence {
                context,
                time,
                started,
                status,
                result: collected,
                rest,
            }),
            forall|i: int| 0 <= i < outer@.len() ==> (#[trigger] outer@[i]).wf(),
            sub.wf(),
        ensures
            next.0.ready(next.1),
            forall|events: Seq<Event>|
                next.1.items() + #[trigger] next.0.resume(events) == shown::<C>(messages@)
                    + give_back(outer@, sub@, events),
    {
        assert(outer@[outer@.len() - 1].wf());
        assert forall|i: int| 0 <= i < frames@.len() implies (#[trigger] frames@[i]).wf() by {
            assert(frames@[i] == outer@[i]);
        }
        let failed = sub.contains(StatusResultValue::Error);
        let ghost ended = sub@;
        let ghost last = outer@.last();
        let mut collected = collected;
        collected.absorb(sub);
        let mut status = status;
        status.update(&context, failed);
        if rest.len() == 0 || (failed && !context.opt.keep_going) {
            let runner = StepRunner {
                state: State::Closing { context, time, started, status, result: collected },
                frames,
            };
            let output = Output { messages, action: Action::ReadClock };
            assert forall|events: Seq<Event>|
                output.items() + #[trigger] runner.resume(events) == shown::<C>(messages@)
                    + give_back(outer@, ended, events) by {
                lemma_sequence_closes(outer@, ended, events);
                lemma_items(output, runner.resume(events));
            }
            (runner, output)
        } else {
            let mut rest = rest;
            let ghost before = rest@;
            let step = rest.remove(0);
            assert(rest@ =~= before.drop_first());
            let inner = context.clone();
            let counted = status.clone();
            let ghost below = frames@;
            let mut frames = frames;
            frames.push(
                Frame::Sequence { context, time, started, status, result: collected, rest },
            );
            assert(frames@.drop_last() =~= below);
            let runner = StepRunner {
                state: State::Entering { context: inner, step, status: counted },
                frames,
            };
            let output = Output { messages, action: Action::ReadClock };
            assert forall|events: Seq<Event>|
                output.items() + #[trigger] runner.resume(events) == shown::<C>(messages@)
                    + give_back(outer@, ended, events) by {
                lemma_sequence_continues(outer@, frames@, ended, events);
                lemma_items(output, runner.resume(events));
            }
            (runner, output)
        }
    }

    /// Enters a step inside of `context`, at the time that the clocks show.
    fn enter(
        frames: Vec<Frame<C>>,
        context: Context,
        step: Step<C>,
        status: Status,
        timestamp: i64,
        nanos: u64,
    ) -> (next: (Self, Output<C>))
        requires
            forall|i: int| 0 <= i < frames@.len() ==> (#[trigger] frames@[i]).wf(),
            context.prefix@.len() == 0 ==> status@.remaining >= step.completions(),
        ensures
            next.0.ready(next.1),
            forall|events: Seq<Event>|
                next.1.items() + #[trigger] next.0.resume(events) == finish(
                    frames@,
                    run_one(
                        context@,
                        step,
                        status@,
                        seq![Event::Clock { timestamp, nanos }] + events,
                    ),
                ),
    {
        let ghost clock = Event::Clock { timestamp, nanos };
        let ghost outer = frames@;
        let ghost place = context@;
        let ghost entered = step;
        let time = time_of_day(timestamp);
        match step {
            Step::Single { name, command } => {
                let here = context.child(name.as_str());
                let mut messages: Vec<Message> = Vec::new();
                if here.opt.commands || here.opt.dry_run {
                    messages.push(
                        Message::Announce {
                            head: head(time.as_str(), &status, &here),
                            description: command.description(),
                        },
                    );
                }
                messages.push(Message::Prompt { head: head(time.as_str(), &status, &here) });
                assert(shown::<C>(messages@) =~= single_opening(here@, time@, status@, command));
                let runner = StepRunner {
                    state: State::Running { context: here, started: nanos, status },
                    frames,
                };
                let output = Output { messages, action: Action::Run { command } };
                assert forall|events: Seq<Event>|
                    output.items() + #[trigger] runner.resume(events) == finish(
                        outer,
                        run_one(place, entered, status@, seq![clock] + events),
                    ) by {
                    lemma_first(clock, events);
                    lemma_finish_after(
                        outer,
                        output.items(),
                        single_end(here@, nanos, events),
                    );
                }
                (runner, output)
            },
            Step::Multiple { name, steps } => {
                let here = context.child(name.as_str());
                Self::enter_sequence(
                    frames,
                    Ghost(place),
                    Ghost(entered),
                    here,
                    name,
                    steps,
                    status,
                    timestamp,
                    nanos,
                    time,
                )
            },
            Step::WithBackground { name, background, foreground } => {
                let here = context.child(name.as_str());
                let mut messages: Vec<Message> = Vec::new();
                messages.push(Message::Open { head: head(time.as_str(), &status, &here) });
                let command = if here.opt.commands || here.opt.dry_run {
                    Some(background.description())
                } else {
                    None
                };
                messages.push(
                    Message::Background { head: head(time.as_str(), &status, &here), command },
                );
                let action = Action::Start { command: background, settle_millis: SETTLE_MILLIS };
                let runner = StepRunner {
                    state: State::Launching { context: here, time, status, foreground },
                    frames,
                };
                let output = Output { messages, action };
                assert(output.items() =~= background_opening(here@, time@, status@, background));
                assert forall|events: Seq<Event>|
                    output.items() + #[trigger] runner.resume(events) == finish(
                        outer,
                        run_one(place, entered, status@, seq![clock] + events),
                    ) by {
                    lemma_first(clock, events);
                    lemma_finish_after(
                        outer,
                        output.items(),
                        run_foreground(here@, time@, status@, *foreground, events),
                    );
                }
                (runner, output)
            },
        }
    }

    /// Enters a collection of sub-steps at `context`: shows it, and turns to the first of them.
    fn enter_sequence(
        frames: Vec<Frame<C>>,
        place: Ghost<Place>,
        entered: Ghost<Step<C>>,
        here: Context,
        name: String,
        steps: Vec<Step<C>>,
        status: Status,
        timestamp: i64,
        nanos: u64,
        time: String,
    ) -> (next: (Self, Output<C>))
        requires
            forall|i: int| 0 <= i < frames@.len() ==> (#[trigger] frames@[i]).wf(),
            entered@ == (Step::Multiple { name, steps }),
            here@ == place@.child(name@),
            time@ == entry_time(timestamp),
            here@.prefix.len() == 1 ==> status@.remaining >= steps@.len(),
        ensures
            next.0.ready(next.1),
            forall|events: Seq<Event>|
                next.1.items() + #[trigger] next.0.resume(events) == finish(
                    frames@,
                    run_one(
                        place@,
                        entered@,
                        status@,
                        seq![Event::Clock { timestamp, nanos }] + events,
                    ),
                ),
    {
        let ghost clock = Event::Clock { timestamp, nanos };
        let ghost outer = frames@;
        let ghost counts = status@;
        let ghost open = Shown::Open { head: head_text(time@, status@, here@) };
        let mut messages: Vec<Message> = Vec::new();
        messages.push(Message::Open { head: head(time.as_str(), &status, &here) });
        assert(shown::<C>(messages@) =~= seq![Item::Show(open)]);
        if steps.len() == 0 {
            let runner = StepRunner {
                state: State::Closing {
                    context: here,
                    time,
                    started: nanos,
                    status,
                    result: StepResult::new(),
                },
                frames,
            };
            let output = Output { messages, action: Action::ReadClock };
            assert forall|events: Seq<Event>|
                output.items() + #[trigger] runner.resume(events) == finish(
                    outer,
                    run_one(place@, entered@, counts, seq![clock] + events),
                ) by {
                lemma_first(clock, events);
                let end = sequence_end(here@, time@, nanos, counts, Collected::empty(), events);
                assert(seq![Item::<C>::Show(open)] + Seq::<Item<C>>::empty() + seq![
                    Item::<C>::Do(Deed::ReadClock),
                ] =~= output.items());
                lemma_finish_after(outer, output.items(), end);
            }
            (runner, output)
        } else {
            let mut steps = steps;
            let ghost all = steps@;
            let step = steps.remove(0);
            assert(steps@ =~= all.drop_first());
            let inner = here.clone();
            let counted = status.clone();
            let mut frames = frames;
            frames.push(
                Frame::Sequence {
                    context: here,
                    time,
                    started: nanos,
                    status,
                    result: StepResult::new(),
                    rest: steps,
                },
            );
            assert(frames@.drop_last() =~= outer);
            let runner = StepRunner {
                state: State::Entering { context: inner, step, status: counted },
                frames,
            };
            let output = Output { messages, action: Action::ReadClock };
            assert forall|events: Seq<Event>|
                output.items() + #[trigger] runner.resume(events) == finish(
                    outer,
                    run_one(place@, entered@, counts, seq![clock] + events),
                ) by {
                lemma_first(clock, events);
                lemma_sequence_enters(
                    outer,
                    frames@,
                    place@,
                    entered@,
                    counts,
                    timestamp,
                    nanos,
                    events,
                );
                lemma_items(output, runner.resume(events));
            }
            (runner, output)
        }
    }

    /// Takes note of the end of a single command.
    fn end_single(
        frames: Vec<Frame<C>>,
        context: Context,
        started: u64,
        status: Status,
        ended: SingleStatusResult,
        nanos: u64,
    ) -> (next: (Self, Output<C>))
        requires
            forall|i: int| 0 <= i < frames@.len() ==> (#[trigger] frames@[i]).wf(),
            context.prefix@.len() == 1 ==> status@.remaining >= 1,
        ensures
            next.0.ready(next.1),
            forall|events: Seq<Event>|
                next.1.items() + #[trigger] next.0.resume(events) == finish(
                    frames@,
                    single_end(
                        context@,
                        started,
                        seq![Event::Finished { status: ended, nanos }] + events,
                    ),
                ),
    {
        let ghost event = Event::Finished { status: ended, nanos };
        let ghost here = context@;
        let failed = ended.value == StatusResultValue::Error;
        let mut result = StepResult::new();
        let mut messages: Vec<Message> = Vec::new();
        let took = if nanos >= started {
            nanos - started
        } else {
            0
        };
        messages.push(Message::Outcome { value: ended.value, nanos: took });
        let logs_shown = (failed || context.opt.logs) && !ended.logs.as_str().is_empty();
        if logs_shown {
            result.record(context.to_string());
            messages.push(
                Message::LogBox { context: context.to_string(), logs: ended.logs.clone() },
            );
        }
        result.insert(ended.value);
        let mut status = status;
        status.update(&context, failed);
        let ghost outcome = Shown::Outcome { value: ended.value, nanos: took };
        assert(shown::<C>(messages@) =~= seq![Item::<C>::Show(outcome)] + log_box(
            here,
            failed,
            ended.logs@,
        ));
        assert(result@ == single_result(here, ended.value, ended.logs@));
        let ghost collected = result@;
        let next = Self::deliver(frames, messages, result);
        assert forall|events: Seq<Event>|
            next.1.items() + #[trigger] next.0.resume(events) == finish(
                frames@,
                single_end(here, started, seq![event] + events),
            ) by {
            lemma_first(event, events);
        }
        next
    }

    /// Takes note of the end of a background command.
    fn end_background(
        frames: Vec<Frame<C>>,
        context: Context,
        time: String,
        status: Status,
        foreground: StepResult,
        logs: String,
        ended: SingleStatusResult,
        nanos: u64,
    ) -> (next: (Self, Output<C>))
        requires
            forall|i: int| 0 <= i < frames@.len() ==> (#[trigger] frames@[i]).wf(),
            context.prefix@.len() == 1 ==> status@.remaining >= 1,
            foreground.wf(),
        ensures
            next.0.ready(next.1),
            forall|events: Seq<Event>|
                next.1.items() + #[trigger] next.0.resume(events) == finish(
                    frames@,
                    background_end(
                        context@,
                        time@,
                        status@,
                        foreground@,
                        logs@,
                        seq![Event::Finished { status: ended, nanos }] + events,
                    ),
                ),
    {
        let ghost event = Event::Finished { status: ended, nanos };
        let ghost here = context@;
        let ghost counts = status@;
        let ghost before = foreground@;
        let failed = ended.value == StatusResultValue::Error || foreground.contains(
            StatusResultValue::Error,
        );
        let mut messages: Vec<Message> = Vec::new();
        messages.push(
            Message::Finished {
                head: head(time.as_str(), &status, &context),
                value: ended.value,
            },
        );
        let logs_shown = (failed || context.opt.logs) && !logs.as_str().is_empty();
        let ghost finished = Shown::Finished {
            head: head_text(time@, counts, here),
            value: ended.value,
        };
        if logs_shown {
            messages.push(Message::LogBox { context: context.to_string(), logs: logs.clone() });
        }
        assert(shown::<C>(messages@) =~= seq![Item::<C>::Show(finished)] + log_box(
            here,
            failed,
            logs@,
        ));
        let mut result = foreground;
        if ended.value == StatusResultValue::Error {
            result.record(context.to_string());
        }
        result.insert(ended.value);
        let mut status = status;
        status.update(&context, result.contains(StatusResultValue::Error));
        assert(result@ == background_result(here, before, ended.value));
        let next = Self::deliver(frames, messages, result);
        assert forall|events: Seq<Event>|
            next.1.items() + #[trigger] next.0.resume(events) == finish(
                frames@,
                background_end(here, time@, counts, before, logs@, seq![event] + events),
            ) by {
            lemma_first(event, events);
        }
        next
    }

    /// Goes on from `self` when `event` has happened. The output is what the event puts on the
    /// trace, and on all events to come the trace goes on as it would have done.
    pub fn next(self, event: Event) -> (next: (Self, Output<C>))
        requires
            self.wf(),
            self.awaits(event),
        ensures
            next.0.ready(next.1),
            next.1.items() == self.resume(seq![event]),
            forall|events: Seq<Event>|
                next.1.items() + #[trigger] next.0.resume(events) == self.resume(
                    seq![event] + events,
                ),
    {
        let next = self.advance(event);
        proof {
            let none = Seq::<Event>::empty();
            next.0.lemma_quiet();
            assert(next.1.items() + next.0.resume(none) =~= next.1.items());
            assert(seq![event] + none =~= seq![event]);
        }
        next
    }

    /// Without an event, nothing is put on the trace.
    proof fn lemma_quiet(self)
        ensures
            self.resume(Seq::empty()) == Seq::<Item<C>>::empty(),
    {
    }

    /// Goes on from `self` when `event` has happened.
    #[verifier::rlimit(50)]
    fn advance(self, event: Event) -> (next: (Self, Output<C>))
        requires
            self.wf(),
            self.awaits(event),
        ensures
            next.0.ready(next.1),
            forall|events: Seq<Event>|
                next.1.items() + #[trigger] next.0.resume(events) == self.resume(
                    seq![event] + events,
                ),
    {
        let StepRunner { state, frames } = self;
        match (state, event) {
            (
                State::Entering { context, step, status },
                Event::Clock { timestamp, nanos },
            ) => Self::enter(frames, context, step, status, timestamp, nanos),
            (
                State::Running { context, started, status },
                Event::Finished { status: ended, nanos },
            ) => Self::end_single(frames, context, started, status, ended, nanos),
            (State::Launching { context, time, status, foreground }, Event::Started) => {
                let ghost outer = frames@;
                let ghost here = context@;
                let inner = context.clone();
                let counted = status.clone();
                let mut frames = frames;
                frames.push(Frame::Foreground { context, time, status });
                assert(frames@.drop_last() =~= outer);
                let runner = StepRunner {
                    state: State::Entering { context: inner, step: *foreground, status: counted },
                    frames,
                };
                let output = Output { messages: Vec::new(), action: Action::ReadClock };
                assert forall|events: Seq<Event>|
                    output.items() + #[trigger] runner.resume(events) == self.resume(
                        seq![event] + events,
                    ) by {
                    lemma_first(event, events);
                    lemma_foreground_enters(
                        outer,
                        frames@,
                        here,
                        time@,
                        counted@,
                        *foreground,
                        events,
                    );
                    assert(output.items() =~= seq![Item::<C>::Do(Deed::ReadClock)]);
                }
                (runner, output)
            },
            (
                State::Stopping { context, time, status, result },
                Event::Output { stdout, stderr },
            ) => {
                let logs = format_logs(stdout.as_slice(), stderr.as_slice());
                let mut messages: Vec<Message> = Vec::new();
                messages.push(Message::Waiting { head: head(time.as_str(), &status, &context) });
                let ghost waiting = Shown::Waiting { head: head_text(time@, status@, context@) };
                let output = Output { messages, action: Action::Await };
                let runner = StepRunner {
                    state: State::Awaiting { context, time, status, result, logs },
                    frames,
                };
                assert forall|events: Seq<Event>|
                    output.items() + #[trigger] runner.resume(events) == self.resume(
                        seq![event] + events,
                    ) by {
                    lemma_first(event, events);
                    assert(output.items() =~= seq![
                        Item::<C>::Show(waiting),
                        Item::Do(Deed::Await),
                    ]);
                    lemma_finish_after(
                        frames@,
                        output.items(),
                        background_end(context@, time@, status@, result@, logs@, events),
                    );
                }
                (runner, output)
            },
            (
                State::Awaiting { context, time, status, result, logs },
                Event::Finished { status: ended, nanos },
            ) => Self::end_background(frames, context, time, status, result, logs, ended, nanos),
            (
                State::Closing { context, time, started, status, result },
                Event::Clock { timestamp, nanos },
            ) => {
                let took = if nanos >= started {
                    nanos - started
                } else {
                    0
                };
                let mut messages: Vec<Message> = Vec::new();
                let values = result.values.clone();
                assert(values@ =~= result.values@);
                messages.push(
                    Message::Close {
                        head: head(time.as_str(), &status, &context),
                        values,
                        nanos: took,
                    },
                );
                let ghost close = Shown::Close {
                    head: head_text(time@, status@, context@),
                    values: result@.values,
                    nanos: took,
                };
                assert(shown::<C>(messages@) =~= seq![Item::<C>::Show(close)]);
                let next = Self::deliver(frames, messages, result);
                assert forall|events: Seq<Event>|
                    next.1.items() + #[trigger] next.0.resume(events) == self.resume(
                        seq![event] + events,
                    ) by {
                    lemma_first(event, events);
                }
                next
            },
            (state, _) => {
                assert(false);
                let output = Output { messages: Vec::new(), action: Action::ReadClock };
                (StepRunner { state, frames }, output)
            },
        }
    }
}

/// Whether no more top-level steps complete in a run of the step than remain.
pub fn fits<C>(context: &Context, step: &Step<C>, run_status: &Status) -> (fits: bool)
    ensures
        fits == (context@.prefix.len() == 0 ==> run_status@.remaining >= step.completions()),
{
    let completions = match step {
        Step::Multiple { name: _, steps } => steps.len(),
        _ => 1,
    };
    context.depth() > 0 || run_status.remaining() >= completions
}

/// Run the provided step. The run begins with the reading of the clocks; what it shows and asks
/// for from then on is the trace of the step.
pub fn run_step<C: Runnable>(context: &Context, step: Step<C>, run_status: Status) -> (runner:
    StepRunner<C>)
    requires
        context@.prefix.len() == 0 ==> run_status@.remaining >= step.completions(),
    ensures
        runner.wf(),
        forall|event: Event| #[trigger] runner.awaits(event) == (event is Clock),
        forall|events: Seq<Event>| #[trigger]
            runner.resume(events) == trace(context@, step, run_status@, events),
{
    StepRunner {
        state: State::Entering { context: context.clone(), step, status: run_status },
        frames: Vec::new(),
    }
}

/// Events that begin with `event`.
proof fn lemma_first(event: Event, events: Seq<Event>)
    ensures
        (seq![event] + events).len() > 0,
        (seq![event] + events)[0] == event,
        (seq![event] + events).drop_first() == events,
{
    assert((seq![event] + events).drop_first() =~= events);
}

/// What a step puts on the trace first, it puts there inside of any frames.
proof fn lemma_finish_after<C: Runnable>(
    frames: Seq<Frame<C>>,
    items: Seq<Item<C>>,
    run: Progress<C, Collected>,
)
    ensures
        finish(frames, run.after(items)) == items + finish(frames, run),
{
    if let Some((collected, rest)) = run.end {
        let end = give_back(frames, collected, rest);
        assert((items + run.trace) + end =~= items + (run.trace + end));
    }
}

/// A collection of sub-steps is entered, and then the first of them.
#[verifier::rlimit(50)]
proof fn lemma_sequence_enters<C: Runnable>(
    outer: Seq<Frame<C>>,
    frames: Seq<Frame<C>>,
    place: Place,
    step: Step<C>,
    counts: Counts,
    timestamp: i64,
    nanos: u64,
    events: Seq<Event>,
)
    requires
        frames.len() > 0,
        frames.drop_last() == outer,
        match (step, frames.last()) {
            (
                Step::Multiple { name, steps },
                Frame::Sequence { context, time, started, status, result, rest },
            ) => {
                &&& steps@.len() > 0
                &&& context@ == place.child(name@)
                &&& time@ == entry_time(timestamp)
                &&& started == nanos
                &&& status@ == counts
                &&& result@ == Collected::empty()
                &&& rest@ == steps@.drop_first()
            },
            _ => false,
        },
    ensures
        match step {
            Step::Multiple { name, steps } => {
                let here = place.child(name@);
                let open = Shown::Open { head: head_text(entry_time(timestamp), counts, here) };
                finish(
                    outer,
                    run_one(
                        place,
                        step,
                        counts,
                        seq![Event::Clock { timestamp, nanos }] + events,
                    ),
                ) == seq![Item::Show(open)] + (seq![Item::Do(Deed::ReadClock)] + finish(
                    frames,
                    run_one(here, steps@[0], counts, events),
                ))
            },
            _ => false,
        },
{
    let clock = Event::Clock { timestamp, nanos };
    lemma_first(clock, events);
    if let Step::Multiple { name, steps } = step {
        let here = place.child(name@);
        let time = entry_time(timestamp);
        let open = seq![
            Item::<C>::Show(Shown::Open { head: head_text(time, counts, here) }),
        ];
        let read = seq![Item::<C>::Do(Deed::ReadClock)];
        let run = run_one(here, steps@[0], counts, events);
        let all = run_steps(here, steps@, counts, Collected::empty(), events);
        match run.end {
            None => {
                assert(open + (read + run.trace) =~= open + all.trace);
            },
            Some((sub, rest)) => {
                let collected = Collected::empty().absorb(sub);
                let counts2 = counts.after(here.prefix.len(), sub.has_error());
                let more = if sub.has_error() && !here.flags.keep_going {
                    Progress {
                        trace: Seq::<Item<C>>::empty(),
                        end: Some(((collected, counts2), rest)),
                    }
                } else {
                    run_steps(here, steps@.drop_first(), counts2, collected, rest)
                };
                assert(all.trace =~= (read + run.trace) + more.trace);
                assert(all.end == more.end);
                if let Some(((collected3, counts3), events3)) = more.end {
                    let end = sequence_end(here, time, nanos, counts3, collected3, events3);
                    lemma_finish_after(outer, open + all.trace + read, end);
                    let tail = finish(outer, end);
                    assert(give_back(frames, sub, rest) == more.trace + read + tail);
                    assert((open + all.trace + read) + tail =~= open + (read + (run.trace + (
                    more.trace + read + tail))));
                } else {
                    assert(give_back(frames, sub, rest) == more.trace);
                    assert(open + all.trace =~= open + (read + (run.trace + more.trace)));
                }
            },
        }
    }
}

/// The foreground step is entered once the background command was started.
proof fn lemma_foreground_enters<C: Runnable>(
    outer: Seq<Frame<C>>,
    frames: Seq<Frame<C>>,
    here: Place,
    time: Seq<char>,
    counts: Counts,
    foreground: Step<C>,
    events: Seq<Event>,
)
    requires
        frames.len() > 0,
        frames.drop_last() == outer,
        match frames.last() {
            Frame::Foreground { context, time: time2, status } => {
                &&& context@ == here
                &&& time2@ == time
                &&& status@ == counts
            },
            _ => false,
        },
    ensures
        finish(
            outer,
            run_foreground(here, time, counts, foreground, seq![Event::Started] + events),
        ) == seq![Item::Do(Deed::ReadClock)] + finish(
            frames,
            run_one(here, foreground, counts, events),
        ),
{
    lemma_first(Event::Started, events);
    let run = run_one(here, foreground, counts, events);
    let read = seq![Item::<C>::Do(Deed::ReadClock)];
    let stop = seq![Item::<C>::Do(Deed::Stop)];
    if let Some((collected, rest)) = run.end {
        let end = background_stop(here, time, counts, collected, rest);
        lemma_finish_after(outer, read + run.trace + stop, end);
        let tail = finish(outer, end);
        assert((read + run.trace + stop) + tail =~= read + (run.trace + (stop + tail)));
    }
}

/// An output, and what comes after it.
proof fn lemma_items<C>(output: Output<C>, rest: Seq<Item<C>>)
    ensures
        output.items() + rest == shown::<C>(output.messages@) + (seq![Item::Do(output.action@)]
            + rest),
{
    assert(output.items() + rest =~= shown::<C>(output.messages@) + (seq![
        Item::Do(output.action@),
    ] + rest));
}

/// A collection of sub-steps is left once none is to be run any more.
proof fn lemma_sequence_closes<C: Runnable>(
    frames: Seq<Frame<C>>,
    sub: Collected,
    events: Seq<Event>,
)
    requires
        frames.len() > 0,
        frames.last() matches Frame::Sequence { context, rest, .. } && (rest@.len() == 0 || (
        sub.has_error() && !context@.flags.keep_going)),
    ensures
        frames.last() matches Frame::Sequence { context, time, started, status, result, .. } && {
            let counts = status@.after(context@.prefix.len(), sub.has_error());
            let end = sequence_end(
                context@,
                time@,
                started,
                counts,
                result@.absorb(sub),
                events,
            );
            give_back(frames, sub, events) == seq![Item::Do(Deed::ReadClock)] + finish(
                frames.drop_last(),
                end,
            )
        },
{
    if let Frame::Sequence { context, time, started, status, result, .. } = frames.last() {
        let counts = status@.after(context@.prefix.len(), sub.has_error());
        let end = sequence_end(context@, time@, started, counts, result@.absorb(sub), events);
        let closing = seq![Item::<C>::Do(Deed::ReadClock)] + finish(frames.drop_last(), end);
        assert(Seq::<Item<C>>::empty() + seq![Item::<C>::Do(Deed::ReadClock)] + finish(
            frames.drop_last(),
            end,
        ) =~= closing);
    }
}

/// `later` is the collection of sub-steps `frame`, once a sub-step has yielded `sub` and the next
/// one is run.
spec fn next_sub_step<C>(frame: Frame<C>, later: Frame<C>, sub: Collected) -> bool {
    match (frame, later) {
        (
            Frame::Sequence { context, time, started, status, result, rest },
            Frame::Sequence {
                context: context2,
                time: time2,
                started: started2,
                status: status2,
                result: result2,
                rest: rest2,
            },
        ) => {
            &&& rest@.len() > 0
            &&& !(sub.has_error() && !context@.flags.keep_going)
            &&& context2@ == context@
            &&& time2@ == time@
            &&& started2 == started
            &&& status2@ == status@.after(context@.prefix.len(), sub.has_error())
            &&& result2@ == result@.absorb(sub)
            &&& rest2@ == rest@.drop_first()
        },
        _ => false,
    }
}

/// In a collection of sub-steps, the next one is entered.
#[verifier::rlimit(50)]
proof fn lemma_sequence_continues<C: Runnable>(
    frames: Seq<Frame<C>>,
    later: Seq<Frame<C>>,
    sub: Collected,
    events: Seq<Event>,
)
    requires
        frames.len() > 0,
        later.len() == frames.len(),
        later.drop_last() == frames.drop_last(),
        next_sub_step(frames.last(), later.last(), sub),
    ensures
        frames.last() matches Frame::Sequence { context, status, rest, .. } && {
            let counts = status@.after(context@.prefix.len(), sub.has_error());
            give_back(frames, sub, events) == seq![Item::Do(Deed::ReadClock)] + finish(
                later,
                run_one(context@, rest@[0], counts, events),
            )
        },
{
    if let Frame::Sequence { context, time, started, status, result, rest } = frames.last() {
        let counts = status@.after(context@.prefix.len(), sub.has_error());
        let collected = result@.absorb(sub);
        let run = run_one(context@, rest@[0], counts, events);
        let all = run_steps(context@, rest@, counts, collected, events);
        let clock = seq![Item::<C>::Do(Deed::ReadClock)];
        if let Some((sub2, events2)) = run.end {
            let counts2 = counts.after(context@.prefix.len(), sub2.has_error());
            let collected2 = collected.absorb(sub2);
            if sub2.has_error() && !context@.flags.keep_going {
                lemma_sequence_closes(later, sub2, events2);
                let end = finish(
                    frames.drop_last(),
                    sequence_end(context@, time@, started, counts2, collected2, events2),
                );
                assert((clock + run.trace) + clock + end =~= clock + (run.trace + (clock + end)));
            } else {
                let more = run_steps(
                    context@,
                    rest@.drop_first(),
                    counts2,
                    collected2,
                    events2,
                );
                if let Some(((collected3, counts3), events3)) = more.end {
                    let end = finish(
                        frames.drop_last(),
                        sequence_end(context@, time@, started, counts3, collected3, events3),
                    );
                    assert(((clock + run.trace) + more.trace) + clock + end =~= clock + (run.trace
                        + (more.trace + clock + end)));
                } else {
                    assert((clock + run.trace) + more.trace =~= clock + (run.trace + more.trace));
                }
            }
        }
    }
}

} // verus!
