//! Colours on the terminal.

use vstd::prelude::*;

use crate::status::StatusResultValue;

verus! {

/// The ways in which parts of a line are set off.
#[derive(PartialEq, Eq, Clone, Copy, Debug, Structural)]
pub enum Style {
    Blue,
    BoldBrightGreen,
    BoldBrightRed,
    BoldBrightYellow,
}

impl Style {
    /// The escape sequence that switches the style on.
    pub open spec fn code(self) -> Seq<char> {
        match self {
            Style::Blue => seq!['\x1b', '[', '3', '4', 'm'],
            Style::BoldBrightGreen => seq!['\x1b', '[', '1', ';', '9', '2', 'm'],
            Style::BoldBrightRed => seq!['\x1b', '[', '1', ';', '9', '1', 'm'],
            Style::BoldBrightYellow => seq!['\x1b', '[', '1', ';', '9', '3', 'm'],
        }
    }
}

/// The escape sequence that switches all styles off.
pub open spec fn reset() -> Seq<char> {
    seq!['\x1b', '[', '0', 'm']
}

/// The text, with `code` behind each sequence in it that switches all styles off.
pub open spec fn restyled(text: Seq<char>, code: Seq<char>) -> Seq<char>
    decreases text.len(),
{
    if text.len() == 0 {
        text
    } else if text.len() >= 4 && text.take(4) == reset() {
        reset() + code + restyled(text.skip(4), code)
    } else {
        seq![text[0]] + restyled(text.drop_first(), code)
    }
}

/// Whether `painted` shows `text` in the given style, on a terminal with or without colours.
pub open spec fn is_painted(style: Style, text: Seq<char>, painted: Seq<char>) -> bool {
    ||| painted == text
    ||| painted == style.code() + restyled(text, style.code()) + reset()
}

/// `colored::Colorize::blue` sets a text in blue, or leaves it as it is where `colored` finds that
/// colours are off. Which of the two depends on the environment, and is not stated.
#[verifier::external_body]
fn blue(text: &str) -> (painted: String)
    ensures
        is_painted(Style::Blue, text@, painted@),
{
    colored::Colorize::blue(text).to_string()
}

/// `colored::Colorize::bright_green` on a text in bold (`colored::Colorize::bold`), or the text as
/// it is where colours are off; which of the two is not stated.
#[verifier::external_body]
fn bold_bright_green(text: &str) -> (painted: String)
    ensures
        is_painted(Style::BoldBrightGreen, text@, painted@),
{
    colored::Colorize::bright_green(colored::Colorize::bold(text)).to_string()
}

/// `colored::Colorize::bright_red` on a text in bold (`colored::Colorize::bold`), or the text as
/// it is where colours are off; which of the two is not stated.
#[verifier::external_body]
fn bold_bright_red(text: &str) -> (painted: String)
    ensures
        is_painted(Style::BoldBrightRed, text@, painted@),
{
    colored::Colorize::bright_red(colored::Colorize::bold(text)).to_string()
}

/// `colored::Colorize::bright_yellow` on a text in bold (`colored::Colorize::bold`), or the text as
/// it is where colours are off; which of the two is not stated.
#[verifier::external_body]
fn bold_bright_yellow(text: &str) -> (painted: String)
    ensures
        is_painted(Style::BoldBrightYellow, text@, painted@),
{
    colored::Colorize::bright_yellow(colored::Colorize::bold(text)).to_string()
}

/// Shows a text in a style, if colours are on.
pub fn paint(style: Style, text: &str) -> (painted: String)
    ensures
        is_painted(style, text@, painted@),
{
    match style {
        Style::Blue => blue(text),
        Style::BoldBrightGreen => bold_bright_green(text),
        Style::BoldBrightRed => bold_bright_red(text),
        Style::BoldBrightYellow => bold_bright_yellow(text),
    }
}

impl StatusResultValue {
    /// The word for the value.
    pub open spec fn word(self) -> Seq<char> {
        match self {
            StatusResultValue::Passed => "OK"@,
            StatusResultValue::Error => "ERROR"@,
            StatusResultValue::Skipped => "SKIPPED"@,
        }
    }

    /// The style in which the word is shown.
    pub open spec fn shown_in(self) -> Style {
        match self {
            StatusResultValue::Passed => Style::BoldBrightGreen,
            StatusResultValue::Error => Style::BoldBrightRed,
            StatusResultValue::Skipped => Style::BoldBrightYellow,
        }
    }

    /// The word for the value, in its style.
    pub fn to_string(&self) -> (painted: String)
        ensures
            is_painted(self.shown_in(), self.word(), painted@),
    {
        match self {
            StatusResultValue::Passed => paint(Style::BoldBrightGreen, "OK"),
            StatusResultValue::Error => paint(Style::BoldBrightRed, "ERROR"),
            StatusResultValue::Skipped => paint(Style::BoldBrightYellow, "SKIPPED"),
        }
    }
}

} // verus!
