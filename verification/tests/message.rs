use std::time::Duration;

use runner::context::Context;
use runner::message::{head, values_to_string, Message};
use runner::options::{Command, Opt};
use runner::status::{Status, StatusResultValue};

fn without_colours() {
    colored::control::set_override(false);
}

fn head_of_lines() -> String {
    "[12:34:56; E:0,O:0,R:1]: a".to_string()
}

#[test]
fn heads_tell_when_and_where() {
    let opt = Opt {
        dry_run: false,
        commands: false,
        logs: false,
        keep_going: false,
        cmd: Command::RunTests,
    };
    let context = Context::root(&opt).child("a").child("b");
    assert_eq!(head("12:34:56", &Status::new(7), &context), "[12:34:56; E:0,O:0,R:7]: a ❯ b");
}

#[test]
fn values_are_listed() {
    assert_eq!(values_to_string(&vec![]), "[]");
    assert_eq!(values_to_string(&vec!["1".to_string()]), "[1]");
    assert_eq!(values_to_string(&vec!["1".to_string(), "2".to_string()]), "[1,2]");
}

#[test]
fn commands_are_announced_and_prompted_for() {
    without_colours();
    let announce = Message::Announce { head: head_of_lines(), description: "ls -l".to_string() };
    assert_eq!(announce.to_string(), "[12:34:56; E:0,O:0,R:1]: a ⊢ [ls -l] ... \n");
    let prompt = Message::Prompt { head: head_of_lines() };
    assert_eq!(prompt.to_string(), "[12:34:56; E:0,O:0,R:1]: a ⊢ ");
}

#[test]
fn outcomes_tell_how_long_it_took() {
    without_colours();
    for nanos in [0, 999, 1_499_999, 250_000_000, 3_000_000_000, 61_700_000_000] {
        let outcome = Message::Outcome { value: StatusResultValue::Passed, nanos };
        let duration = Duration::from_nanos(nanos);
        assert_eq!(outcome.to_string(), format!("OK [{:.0?}]\n", duration));
    }
    let outcome = Message::Outcome { value: StatusResultValue::Error, nanos: 3_000_000_000 };
    assert_eq!(outcome.to_string(), "ERROR [3s]\n");
    assert_eq!(outcome.duration(), "3s");
    assert_eq!(outcome.render(&vec!["piece".to_string()], "long"), "piece [long]\n");
}

#[test]
fn logs_are_boxed() {
    without_colours();
    let logs = Message::LogBox { context: "a ❯ b".to_string(), logs: "one\r\n\ntwo".to_string() };
    assert_eq!(
        logs.to_string(),
        "a ❯ b ╔════════════════════════\n\
         a ❯ b ║ one\n\
         a ❯ b ║ \n\
         a ❯ b ║ two\n\
         a ❯ b ╚════════════════════════\n"
    );
}

#[test]
fn collections_are_opened_and_closed() {
    without_colours();
    let open = Message::Open { head: head_of_lines() };
    assert_eq!(open.to_string(), "[12:34:56; E:0,O:0,R:1]: a {\n");
    let close = Message::Close {
        head: head_of_lines(),
        values: vec![StatusResultValue::Passed, StatusResultValue::Skipped],
        nanos: 250_000_000,
    };
    assert_eq!(close.to_string(), "[12:34:56; E:0,O:0,R:1]: a } ⊢ [OK,SKIPPED] [250ms]\n");
    let close = Message::Close { head: "h".to_string(), values: vec![], nanos: 0 };
    assert_eq!(close.to_string(), "h } ⊢ [] [0ns]\n");
}

#[test]
fn background_commands_are_followed() {
    without_colours();
    let quiet = Message::Background { head: "h".to_string(), command: None };
    assert_eq!(quiet.to_string(), "h ⊢  (background) ...\n");
    let shown = Message::Background { head: "h".to_string(), command: Some("serve".to_string()) };
    assert_eq!(shown.to_string(), "h ⊢ [serve] (background) ...\n");
    assert_eq!(Message::Waiting { head: "h".to_string() }.to_string(), "h ⊢ (waiting)\n");
    let finished = Message::Finished { head: "h".to_string(), value: StatusResultValue::Error };
    assert_eq!(finished.to_string(), "h ⊢ (finished) ERROR\n");
}
