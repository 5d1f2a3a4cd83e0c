use runner::context::Context;
use runner::options::{Command, Opt};
use runner::status::{Status, StatusResultValue, StepResult};

fn opt() -> Opt {
    Opt {
        dry_run: false,
        commands: false,
        logs: false,
        keep_going: false,
        cmd: Command::RunTests,
    }
}

#[test]
fn only_top_level_steps_are_counted() {
    let root = Context::root(&opt());
    let top = root.child("top");
    let inner = top.child("inner");
    let mut status = Status::new(3);
    assert_eq!(status.to_string(), "E:0,O:0,R:3");
    status.update(&root, true);
    status.update(&inner, true);
    assert_eq!(status.to_string(), "E:0,O:0,R:3");
    status.update(&top, false);
    assert_eq!(status.to_string(), "E:0,O:1,R:2");
    status.update(&top, true);
    assert_eq!(status.to_string(), "E:1,O:1,R:1");
    assert_eq!(status.clone().to_string(), "E:1,O:1,R:1");
}

#[test]
fn contexts_name_the_enclosing_steps() {
    let root = Context::root(&opt());
    assert_eq!(root.to_string(), "");
    assert_eq!(root.depth(), 0);
    let inner = root.child("examples").child("run");
    assert_eq!(inner.to_string(), "examples ❯ run");
    assert_eq!(inner.depth(), 2);
    assert_eq!(inner.clone().to_string(), "examples ❯ run");
}

#[test]
fn results_hold_each_value_once() {
    let mut result = StepResult::new();
    assert!(!result.contains(StatusResultValue::Error));
    result.insert(StatusResultValue::Passed);
    result.insert(StatusResultValue::Passed);
    let mut sub = StepResult::new();
    sub.insert(StatusResultValue::Error);
    sub.insert(StatusResultValue::Passed);
    sub.record("a ❯ b".to_string());
    result.record("a".to_string());
    result.absorb(sub);
    assert_eq!(result.values, vec![StatusResultValue::Passed, StatusResultValue::Error]);
    assert_eq!(result.failed_steps_prefixes, vec!["a", "a ❯ b"]);
    assert!(result.contains(StatusResultValue::Error));
    assert!(!result.contains(StatusResultValue::Skipped));
}
