use runner::message::Message;
use runner::status::StatusResultValue;
use runner::style::{paint, Style};

fn with_colours() {
    colored::control::set_override(true);
}

#[test]
fn texts_are_painted() {
    with_colours();
    assert_eq!(paint(Style::Blue, "ls -l"), "\x1b[34mls -l\x1b[0m");
    assert_eq!(paint(Style::BoldBrightGreen, "a"), "\x1b[1;92ma\x1b[0m");
    assert_eq!(paint(Style::BoldBrightRed, "a"), "\x1b[1;91ma\x1b[0m");
    assert_eq!(paint(Style::BoldBrightYellow, "a"), "\x1b[1;93ma\x1b[0m");
}

#[test]
fn inner_styles_do_not_end_the_outer_one() {
    with_colours();
    assert_eq!(
        paint(Style::Blue, "a\x1b[31mb\x1b[0mc"),
        "\x1b[34ma\x1b[31mb\x1b[0m\x1b[34mc\x1b[0m"
    );
}

#[test]
fn values_have_their_colours() {
    with_colours();
    assert_eq!(StatusResultValue::Passed.to_string(), "\x1b[1;92mOK\x1b[0m");
    assert_eq!(StatusResultValue::Error.to_string(), "\x1b[1;91mERROR\x1b[0m");
    assert_eq!(StatusResultValue::Skipped.to_string(), "\x1b[1;93mSKIPPED\x1b[0m");
}

#[test]
fn command_lines_are_shown_in_blue() {
    with_colours();
    let message =
        Message::Announce { head: "head".to_string(), description: "ls -l".to_string() };
    assert_eq!(message.to_string(), "head ⊢ [\x1b[34mls -l\x1b[0m] ... \n");
}
