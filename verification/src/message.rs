//! The lines that a run shows.

use vstd::prelude::*;
use vstd::string::*;

use crate::clock::format_duration;
use crate::context::Context;
use crate::status::{Status, StatusResultValue};
use crate::style::{paint, Style};
use crate::text::{join, lines, views};
#[allow(unused_imports)]
use crate::clock::rounded_duration;
#[allow(unused_imports)]
use crate::style::is_painted;
#[allow(unused_imports)]
use crate::text::{joined, lines_of};
#[allow(unused_imports)]
use crate::context::Place;
#[allow(unused_imports)]
use crate::status::Counts;

verus! {

/// Something that a run shows.
pub enum Message {
    /// The command line that is about to be run.
    Announce { head: String, description: String },
    /// A command is running.
    Prompt { head: String },
    /// A command has terminated, after some nanoseconds.
    Outcome { value: StatusResultValue, nanos: u64 },
    /// The logs of a command, in a box.
    LogBox { context: String, logs: String },
    /// The sub-steps of a step are about to be run.
    Open { head: String },
    /// The sub-steps of a step have completed, after some nanoseconds.
    Close { head: String, values: Vec<StatusResultValue>, nanos: u64 },
    /// A command is about to be started in the background.
    Background { head: String, command: Option<String> },
    /// A background command was told to stop.
    Waiting { head: String },
    /// A background command has terminated.
    Finished { head: String, value: StatusResultValue },
}

/// The contents of a [`Message`].
#[verifier::ext_equal]
pub enum Shown {
    Announce { head: Seq<char>, description: Seq<char> },
    Prompt { head: Seq<char> },
    Outcome { value: StatusResultValue, nanos: u64 },
    LogBox { context: Seq<char>, logs: Seq<char> },
    Open { head: Seq<char> },
    Close { head: Seq<char>, values: Seq<StatusResultValue>, nanos: u64 },
    Background { head: Seq<char>, command: Option<Seq<char>> },
    Waiting { head: Seq<char> },
    Finished { head: Seq<char>, value: StatusResultValue },
}

impl View for Message {
    type V = Shown;

    open spec fn view(&self) -> Shown {
        match self {
            Message::Announce { head, description } => Shown::Announce {
                head: head@,
                description: description@,
            },
            Message::Prompt { head } => Shown::Prompt { head: head@ },
            Message::Outcome { value, nanos } => Shown::Outcome { value: *value, nanos: *nanos },
            Message::LogBox { context, logs } => Shown::LogBox { context: context@, logs: logs@ },
            Message::Open { head } => Shown::Open { head: head@ },
            Message::Close { head, values, nanos } => Shown::Close {
                head: head@,
                values: values@,
                nanos: *nanos,
            },
            Message::Background { head, command } => Shown::Background {
                head: head@,
                command: match command {
                    Some(command) => Some(command@),
                    None => None,
                },
            },
            Message::Waiting { head } => Shown::Waiting { head: head@ },
            Message::Finished { head, value } => Shown::Finished { head: head@, value: *value },
        }
    }
}

/// The head of the lines of a step: when it was entered, the counts, and where it stands.
pub open spec fn head_text(time: Seq<char>, counts: Counts, place: Place) -> Seq<char> {
    "["@ + time + "; "@ + counts.text() + "]: "@ + place.text()
}

/// The head of a line.
pub fn head(time: &str, status: &Status, context: &Context) -> (text: String)
    ensures
        text@ == head_text(time@, status@, context@),
{
    let mut text = "[".to_owned();
    text.append(time);
    text.append("; ");
    text.append(status.to_string().as_str());
    text.append("]: ");
    text.append(context.to_string().as_str());
    text
}

/// The top of the box around logs.
pub open spec fn box_top() -> Seq<char> {
    "╔════════════════════════"@
}

/// The bar at the left of each line of logs.
pub open spec fn box_side() -> Seq<char> {
    "║"@
}

/// The bottom of the box around logs.
pub open spec fn box_bottom() -> Seq<char> {
    "╚════════════════════════"@
}

/// Lines of logs behind the bar, each after the context.
pub open spec fn box_lines(
    context: Seq<char>,
    side: Seq<char>,
    logs: Seq<Seq<char>>,
) -> Seq<char>
    decreases logs.len(),
{
    if logs.len() == 0 {
        Seq::empty()
    } else {
        box_lines(context, side, logs.drop_last()) + context + " "@ + side + " "@ + logs.last()
            + "\n"@
    }
}

/// The elements in square brackets, with commas between them.
pub open spec fn list_text(values: Seq<Seq<char>>) -> Seq<char> {
    "["@ + joined(values, ","@) + "]"@
}

impl Shown {
    /// The parts of the message that are set off in a style.
    pub open spec fn marks(self) -> Seq<(Style, Seq<char>)> {
        match self {
            Shown::Announce { description, .. } => seq![(Style::Blue, description)],
            Shown::Outcome { value, .. } => seq![(value.shown_in(), value.word())],
            Shown::LogBox { .. } => seq![
                (Style::Blue, box_top()),
                (Style::Blue, box_side()),
                (Style::Blue, box_bottom()),
            ],
            Shown::Close { values, .. } => Seq::new(
                values.len(),
                |i: int| (values[i].shown_in(), values[i].word()),
            ),
            Shown::Background { command, .. } => match command {
                Some(command) => seq![(Style::Blue, command)],
                None => Seq::empty(),
            },
            Shown::Finished { value, .. } => seq![(value.shown_in(), value.word())],
            _ => Seq::empty(),
        }
    }

    /// Whether the pieces are the marked parts, each in its style.
    pub open spec fn is_painted_as(self, pieces: Seq<Seq<char>>) -> bool {
        &&& pieces.len() == self.marks().len()
        &&& forall|i: int| #![trigger pieces[i]]
            0 <= i < pieces.len() ==> is_painted(self.marks()[i].0, self.marks()[i].1, pieces[i])
    }

    /// The duration that the message tells, as it is shown; nothing if it tells none.
    pub open spec fn duration(self) -> Seq<char> {
        match self {
            Shown::Outcome { nanos, .. } => rounded_duration(nanos),
            Shown::Close { nanos, .. } => rounded_duration(nanos),
            _ => Seq::empty(),
        }
    }

    /// The text of the message, with `pieces` for its marked parts and `duration` for the duration
    /// that it tells.
    pub open spec fn text(self, pieces: Seq<Seq<char>>, duration: Seq<char>) -> Seq<char> {
        match self {
            Shown::Announce { head, .. } => head + " ⊢ ["@ + pieces[0] + "] ... \n"@,
            Shown::Prompt { head } => head + " ⊢ "@,
            Shown::Outcome { .. } => pieces[0] + " ["@ + duration + "]\n"@,
            Shown::LogBox { context, logs } => context + " "@ + pieces[0] + "\n"@ + box_lines(
                context,
                pieces[1],
                lines_of(logs),
            ) + context + " "@ + pieces[2] + "\n"@,
            Shown::Open { head } => head + " {\n"@,
            Shown::Close { head, .. } => head + " } ⊢ "@ + list_text(pieces) + " ["@ + duration
                + "]\n"@,
            Shown::Background { head, command } => match command {
                Some(_) => head + " ⊢ "@ + "["@ + pieces[0] + "]"@ + " (background) ...\n"@,
                None => head + " ⊢ "@ + " (background) ...\n"@,
            },
            Shown::Waiting { head } => head + " ⊢ (waiting)\n"@,
            Shown::Finished { head, .. } => head + " ⊢ (finished) "@ + pieces[0] + "\n"@,
        }
    }
}

/// The elements in square brackets, with commas between them.
pub fn values_to_string(values: &Vec<String>) -> (text: String)
    ensures
        text@ == list_text(views(values@)),
{
    let mut text = "[".to_owned();
    text.append(join(values, ",").as_str());
    text.append("]");
    text
}

/// The box around the lines of `logs`.
fn render_log_box(context: &str, logs: &str, top: &str, side: &str, bottom: &str) -> (text: String)
    ensures
        text@ == context@ + " "@ + top@ + "\n"@ + box_lines(context@, side@, lines_of(logs@))
            + context@ + " "@ + bottom@ + "\n"@,
{
    let mut text = context.to_owned();
    text.append(" ");
    text.append(top);
    text.append("\n");
    let ghost opened = text@;
    let logs = lines(logs);
    assert(opened + box_lines(context@, side@, views(logs@).take(0)) =~= opened);
    for i in 0..logs.len()
        invariant
            text@ == opened + box_lines(context@, side@, views(logs@).take(i as int)),
    {
        text.append(context);
        text.append(" ");
        text.append(side);
        text.append(" ");
        text.append(logs[i].as_str());
        text.append("\n");
        assert(views(logs@).take(i + 1).drop_last() =~= views(logs@).take(i as int));
        assert(views(logs@).take(i + 1).last() == logs@[i as int]@);
        assert(text@ =~= opened + box_lines(context@, side@, views(logs@).take(i + 1)));
    }
    assert(views(logs@).take(logs@.len() as int) =~= views(logs@));
    text.append(context);
    text.append(" ");
    text.append(bottom);
    text.append("\n");
    text
}

impl Message {
    /// The marked parts of the message, each in its style.
    pub fn paint(&self) -> (pieces: Vec<String>)
        ensures
            self@.is_painted_as(views(pieces@)),
    {
        let mut pieces: Vec<String> = Vec::new();
        match self {
            Message::Announce { description, .. } => {
                pieces.push(paint(Style::Blue, description.as_str()));
            },
            Message::Outcome { value, .. } => {
                pieces.push(value.to_string());
            },
            Message::LogBox { .. } => {
                pieces.push(paint(Style::Blue, "╔════════════════════════"));
                pieces.push(paint(Style::Blue, "║"));
                pieces.push(paint(Style::Blue, "╚════════════════════════"));
            },
            Message::Close { values, .. } => {
                for i in 0..values.len()
                    invariant
                        pieces@.len() == i,
                        forall|j: int| #![trigger pieces@[j]]
                            0 <= j < i ==> is_painted(
                                values@[j].shown_in(),
                                values@[j].word(),
                                pieces@[j]@,
                            ),
                {
                    pieces.push(values[i].to_string());
                }
            },
            Message::Background { command, .. } => {
                if let Some(command) = command {
                    pieces.push(paint(Style::Blue, command.as_str()));
                }
            },
            Message::Finished { value, .. } => {
                pieces.push(value.to_string());
            },
            _ => {},
        }
        pieces
    }

    /// The duration that the message tells, as it is shown; nothing if it tells none.
    pub fn duration(&self) -> (text: String)
        ensures
            text@ == self@.duration(),
    {
        match self {
            Message::Outcome { nanos, .. } => format_duration(*nanos),
            Message::Close { nanos, .. } => format_duration(*nanos),
            _ => String::new(),
        }
    }

    /// The text of the message, with `pieces` for its marked parts and `duration` for the duration
    /// that it tells.
    pub fn render(&self, pieces: &Vec<String>, duration: &str) -> (text: String)
        requires
            pieces@.len() == self@.marks().len(),
        ensures
            text@ == self@.text(views(pieces@), duration@),
    {
        match self {
            Message::Announce { head, .. } => {
                let mut text = head.clone();
                text.append(" ⊢ [");
                text.append(pieces[0].as_str());
                text.append("] ... \n");
                text
            },
            Message::Prompt { head } => {
                let mut text = head.clone();
                text.append(" ⊢ ");
                text
            },
            Message::Outcome { .. } => {
                let mut text = pieces[0].clone();
                text.append(" [");
                text.append(duration);
                text.append("]\n");
                text
            },
            Message::LogBox { context, logs } => render_log_box(
                context.as_str(),
                logs.as_str(),
                pieces[0].as_str(),
                pieces[1].as_str(),
                pieces[2].as_str(),
            ),
            Message::Open { head } => {
                let mut text = head.clone();
                text.append(" {\n");
                text
            },
            Message::Close { head, .. } => {
                let mut text = head.clone();
                text.append(" } ⊢ ");
                text.append(values_to_string(pieces).as_str());
                text.append(" [");
                text.append(duration);
                text.append("]\n");
                text
            },
            Message::Background { head, command } => {
                let mut text = head.clone();
                text.append(" ⊢ ");
                if command.is_some() {
                    text.append("[");
                    text.append(pieces[0].as_str());
                    text.append("]");
                }
                text.append(" (background) ...\n");
                text
            },
            Message::Waiting { head } => {
                let mut text = head.clone();
                text.append(" ⊢ (waiting)\n");
                text
            },
            Message::Finished { head, .. } => {
                let mut text = head.clone();
                text.append(" ⊢ (finished) ");
                text.append(pieces[0].as_str());
                text.append("\n");
                text
            },
        }
    }

    /// The text of the message.
    pub fn to_string(&self) -> (text: String)
        ensures
            exists|pieces: Seq<Seq<char>>| #[trigger]
                self@.is_painted_as(pieces) && text@ == self@.text(pieces, self@.duration()),
    {
        let pieces = self.paint();
        let duration = self.duration();
        self.render(&pieces, duration.as_str())
    }
}

/// Every line of logs stands in the box on a line of its own, behind the context and the bar, in
/// the order of the logs.
pub proof fn every_line_is_boxed(
    context: Seq<char>,
    side: Seq<char>,
    line: Seq<char>,
    first: Seq<Seq<char>>,
    second: Seq<Seq<char>>,
)
    ensures
        box_lines(context, side, Seq::empty()) == Seq::<char>::empty(),
        box_lines(context, side, seq![line]) == context + " "@ + side + " "@ + line + "\n"@,
        box_lines(context, side, first + second) == box_lines(context, side, first) + box_lines(
            context,
            side,
            second,
        ),
    decreases second.len(),
{
    assert(seq![line].drop_last() =~= Seq::empty());
    assert(box_lines(context, side, seq![line].drop_last()) =~= Seq::empty());
    assert(box_lines(context, side, seq![line]) =~= context + " "@ + side + " "@ + line + "\n"@);
    if second.len() == 0 {
        assert(first + second =~= first);
        assert(box_lines(context, side, first) + Seq::<char>::empty() =~= box_lines(
            context,
            side,
            first,
        ));
    } else {
        assert((first + second).drop_last() =~= first + second.drop_last());
        every_line_is_boxed(context, side, line, first, second.drop_last());
        let a = box_lines(context, side, first);
        let b = box_lines(context, side, second.drop_last());
        let last = second.last();
        assert((a + b) + context + " "@ + side + " "@ + last + "\n"@ =~= a + (b + context + " "@
            + side + " "@ + last + "\n"@));
    }
}

/// What a message tells stands in its text: the head first, and after it the command line, the
/// value or the values, as they are painted, and the duration.
pub proof fn messages_tell_what_they_hold(
    head: Seq<char>,
    other: Seq<char>,
    value: StatusResultValue,
    values: Seq<StatusResultValue>,
    nanos: u64,
    pieces: Seq<Seq<char>>,
    duration: Seq<char>,
)
    ensures
        (Shown::Announce { head, description: other }).text(pieces, duration) == head + " ⊢ ["@
            + pieces[0] + "] ... \n"@,
        (Shown::Prompt { head }).text(pieces, duration) == head + " ⊢ "@,
        (Shown::Outcome { value, nanos }).text(pieces, duration) == pieces[0] + " ["@ + duration
            + "]\n"@,
        (Shown::LogBox { context: head, logs: other }).text(pieces, duration) == head + " "@
            + pieces[0] + "\n"@ + box_lines(head, pieces[1], lines_of(other)) + head + " "@
            + pieces[2] + "\n"@,
        (Shown::Open { head }).text(pieces, duration) == head + " {\n"@,
        (Shown::Close { head, values, nanos }).text(pieces, duration) == head + " } ⊢ "@ + ("["@
            + joined(pieces, ","@) + "]"@) + " ["@ + duration + "]\n"@,
        (Shown::Background { head, command: Some(other) }).text(pieces, duration) == head
            + " ⊢ "@ + "["@ + pieces[0] + "]"@ + " (background) ...\n"@,
        (Shown::Background { head, command: None }).text(pieces, duration) == head + " ⊢ "@
            + " (background) ...\n"@,
        (Shown::Waiting { head }).text(pieces, duration) == head + " ⊢ (waiting)\n"@,
        (Shown::Finished { head, value }).text(pieces, duration) == head + " ⊢ (finished) "@
            + pieces[0] + "\n"@,
{
}

/// The parts of a message that are painted are those that it holds: command lines and the frame of
/// a box in blue, and each value in its own style; and the duration is that of the message.
pub proof fn messages_paint_what_they_hold(
    head: Seq<char>,
    other: Seq<char>,
    value: StatusResultValue,
    values: Seq<StatusResultValue>,
    nanos: u64,
)
    ensures
        (Shown::Announce { head, description: other }).marks() == seq![(Style::Blue, other)],
        (Shown::Outcome { value, nanos }).marks() == seq![(value.shown_in(), value.word())],
        (Shown::LogBox { context: head, logs: other }).marks() == seq![
            (Style::Blue, "╔════════════════════════"@),
            (Style::Blue, "║"@),
            (Style::Blue, "╚════════════════════════"@),
        ],
        (Shown::Close { head, values, nanos }).marks().len() == values.len(),
        forall|i: int|
            0 <= i < values.len() ==> #[trigger] (Shown::Close {
                head,
                values,
                nanos,
            }).marks()[i] == (values[i].shown_in(), values[i].word()),
        (Shown::Background { head, command: Some(other) }).marks() == seq![(Style::Blue, other)],
        (Shown::Background { head, command: None }).marks().len() == 0,
        (Shown::Finished { head, value }).marks() == seq![(value.shown_in(), value.word())],
        (Shown::Prompt { head }).marks().len() == 0,
        (Shown::Open { head }).marks().len() == 0,
        (Shown::Waiting { head }).marks().len() == 0,
        (Shown::Outcome { value, nanos }).duration() == rounded_duration(nanos),
        (Shown::Close { head, values, nanos }).duration() == rounded_duration(nanos),
{
}

} // verus!
