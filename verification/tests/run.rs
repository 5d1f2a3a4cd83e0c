use runner::command::Cmd;
use runner::context::Context;
use runner::options::{Command, Opt};
use runner::run::{fits, run_step};
use runner::status::{SingleStatusResult, Status, StatusResultValue, StepResult};
use runner::step::{Runnable, Step, Task};
use runner::trace::{Action, Event, SETTLE_MILLIS};

fn opt() -> Opt {
    Opt {
        dry_run: false,
        commands: false,
        logs: false,
        keep_going: false,
        cmd: Command::RunTests,
    }
}

fn single(name: &str) -> Step<Cmd> {
    Step::Single { name: name.to_string(), command: *Cmd::new(name, &["now"]) }
}

fn multiple(name: &str, steps: Vec<Step<Cmd>>) -> Step<Cmd> {
    Step::Multiple { name: name.to_string(), steps }
}

fn with_background(name: &str, background: &str, foreground: Step<Cmd>) -> Step<Cmd> {
    Step::WithBackground {
        name: name.to_string(),
        background: *Cmd::new(background, &[]),
        foreground: Box::new(foreground),
    }
}

const PASSED: (StatusResultValue, &str) = (StatusResultValue::Passed, "");

const FAILED: (StatusResultValue, &str) = (StatusResultValue::Error, "oops");

/// What has been shown and done, and the result.
struct Done {
    shown: String,
    deeds: Vec<String>,
    result: StepResult,
}

/// Runs a step at 12:34:56, on commands that end as given after three seconds each, and background
/// commands that write `serving` to stdout.
fn run(opt: &Opt, step: Step<Cmd>, ends: Vec<(StatusResultValue, &str)>) -> Done {
    colored::control::set_override(false);
    let remaining = step.len();
    let mut runner = run_step(&Context::root(opt), step, Status::new(remaining));
    let mut ends = ends.into_iter();
    let mut nanos = 0;
    let mut event = Event::Clock { timestamp: 45_296, nanos };
    let mut shown = String::new();
    let mut deeds = Vec::new();
    loop {
        let (next, output) = runner.next(event);
        runner = next;
        for message in &output.messages {
            shown.push_str(&message.to_string());
        }
        let mut end = || {
            let (value, logs) = ends.next().unwrap();
            nanos += 3_000_000_000;
            Event::Finished { status: SingleStatusResult { value, logs: logs.to_string() }, nanos }
        };
        event = match output.action {
            Action::ReadClock => Event::Clock { timestamp: 45_296, nanos },
            Action::Run { command } => {
                deeds.push(format!("run {}", command.description()));
                end()
            }
            Action::Start { command, settle_millis } => {
                deeds.push(format!("start {}", command.description()));
                assert_eq!(settle_millis, SETTLE_MILLIS);
                assert_eq!(settle_millis, 6_000);
                Event::Started
            }
            Action::Stop => {
                deeds.push("stop".to_string());
                Event::Output { stdout: b"serving".to_vec(), stderr: vec![] }
            }
            Action::Await => {
                deeds.push("await".to_string());
                end()
            }
            Action::Done { result } => return Done { shown, deeds, result },
        };
    }
}

#[test]
fn lengths_are_those_of_the_top_level() {
    assert_eq!(single("a").len(), 1);
    assert_eq!(multiple("m", vec![]).len(), 0);
    let inner = multiple("i", vec![single("a"), single("b"), single("c")]);
    assert_eq!(multiple("m", vec![inner, single("d")]).len(), 2);
    assert_eq!(with_background("w", "b", multiple("m", vec![single("a"), single("b")])).len(), 2);
}

#[test]
fn single_commands_are_run() {
    let done = run(&opt(), single("a"), vec![PASSED]);
    assert_eq!(done.shown, "[12:34:56; E:0,O:0,R:1]: a ⊢ OK [3s]\n");
    assert_eq!(done.deeds, vec!["run a now"]);
    assert_eq!(done.result.values, vec![StatusResultValue::Passed]);
    assert!(done.result.failed_steps_prefixes.is_empty());
}

#[test]
fn logs_of_failed_commands_are_shown() {
    let done = run(&opt(), single("a"), vec![(StatusResultValue::Error, "one\ntwo")]);
    assert_eq!(
        done.shown,
        "[12:34:56; E:0,O:0,R:1]: a ⊢ ERROR [3s]\n\
         a ╔════════════════════════\n\
         a ║ one\n\
         a ║ two\n\
         a ╚════════════════════════\n"
    );
    assert_eq!(done.result.values, vec![StatusResultValue::Error]);
    assert_eq!(done.result.failed_steps_prefixes, vec!["a"]);
}

#[test]
fn commands_that_leave_no_logs_are_not_recorded() {
    let done = run(&opt(), single("a"), vec![(StatusResultValue::Error, "")]);
    assert_eq!(done.shown, "[12:34:56; E:0,O:0,R:1]: a ⊢ ERROR [3s]\n");
    assert_eq!(done.result.values, vec![StatusResultValue::Error]);
    assert!(done.result.failed_steps_prefixes.is_empty());
}

#[test]
fn logs_of_passed_commands_are_shown_if_asked_for() {
    let quiet = run(&opt(), single("a"), vec![(StatusResultValue::Passed, "hi")]);
    assert_eq!(quiet.shown, "[12:34:56; E:0,O:0,R:1]: a ⊢ OK [3s]\n");
    assert!(quiet.result.failed_steps_prefixes.is_empty());
    let loud = Opt { logs: true, ..opt() };
    let done = run(&loud, single("a"), vec![(StatusResultValue::Passed, "hi")]);
    assert!(done.shown.ends_with("a ║ hi\na ╚════════════════════════\n"));
    assert_eq!(done.result.failed_steps_prefixes, vec!["a"]);
}

#[test]
fn command_lines_are_shown_if_asked_for() {
    for verbose in [Opt { commands: true, ..opt() }, Opt { dry_run: true, ..opt() }] {
        let done = run(&verbose, single("a"), vec![PASSED]);
        assert_eq!(
            done.shown,
            "[12:34:56; E:0,O:0,R:1]: a ⊢ [a now] ... \n\
             [12:34:56; E:0,O:0,R:1]: a ⊢ OK [3s]\n"
        );
    }
}

#[test]
fn steps_are_run_one_after_the_other() {
    let step = multiple("m", vec![single("a"), multiple("n", vec![single("b")]), single("c")]);
    let done = run(&opt(), step, vec![PASSED, (StatusResultValue::Skipped, ""), PASSED]);
    assert_eq!(
        done.shown,
        "[12:34:56; E:0,O:0,R:3]: m {\n\
         [12:34:56; E:0,O:0,R:3]: m ❯ a ⊢ OK [3s]\n\
         [12:34:56; E:0,O:1,R:2]: m ❯ n {\n\
         [12:34:56; E:0,O:1,R:2]: m ❯ n ❯ b ⊢ SKIPPED [3s]\n\
         [12:34:56; E:0,O:1,R:2]: m ❯ n } ⊢ [SKIPPED] [3s]\n\
         [12:34:56; E:0,O:2,R:1]: m ❯ c ⊢ OK [3s]\n\
         [12:34:56; E:0,O:3,R:0]: m } ⊢ [OK,SKIPPED] [9s]\n"
    );
    assert_eq!(done.deeds, vec!["run a now", "run b now", "run c now"]);
    assert_eq!(
        done.result.values,
        vec![StatusResultValue::Passed, StatusResultValue::Skipped]
    );
}

#[test]
fn empty_collections_come_to_their_end() {
    let done = run(&opt(), multiple("m", vec![]), vec![]);
    assert_eq!(
        done.shown,
        "[12:34:56; E:0,O:0,R:0]: m {\n\
         [12:34:56; E:0,O:0,R:0]: m } ⊢ [] [0ns]\n"
    );
    assert!(done.result.values.is_empty());
}

#[test]
fn a_failure_ends_the_run() {
    let step = multiple(
        "m",
        vec![multiple("n", vec![single("a"), single("b")]), single("c"), single("d")],
    );
    let done = run(&opt(), step, vec![FAILED]);
    assert_eq!(done.deeds, vec!["run a now"]);
    assert_eq!(done.result.values, vec![StatusResultValue::Error]);
    assert_eq!(done.result.failed_steps_prefixes, vec!["m ❯ n ❯ a"]);
    assert!(done.shown.ends_with("[12:34:56; E:1,O:0,R:2]: m } ⊢ [ERROR] [3s]\n"));
}

#[test]
fn a_failure_does_not_end_a_run_that_keeps_going() {
    let keep_going = Opt { keep_going: true, ..opt() };
    let step = multiple(
        "m",
        vec![multiple("n", vec![single("a"), single("b")]), single("c"), single("d")],
    );
    let done = run(&keep_going, step, vec![FAILED, PASSED, PASSED, FAILED]);
    assert_eq!(done.deeds, vec!["run a now", "run b now", "run c now", "run d now"]);
    assert_eq!(done.result.values, vec![StatusResultValue::Error, StatusResultValue::Passed]);
    assert_eq!(done.result.failed_steps_prefixes, vec!["m ❯ n ❯ a", "m ❯ d"]);
    assert!(done.shown.ends_with("[12:34:56; E:2,O:1,R:0]: m } ⊢ [ERROR,OK] [12s]\n"));
}

#[test]
fn background_commands_run_around_the_foreground() {
    let done = run(&opt(), with_background("w", "serve", single("a")), vec![PASSED, PASSED]);
    assert_eq!(
        done.shown,
        "[12:34:56; E:0,O:0,R:1]: w {\n\
         [12:34:56; E:0,O:0,R:1]: w ⊢  (background) ...\n\
         [12:34:56; E:0,O:0,R:1]: w ❯ a ⊢ OK [3s]\n\
         [12:34:56; E:0,O:0,R:1]: w ⊢ (waiting)\n\
         [12:34:56; E:0,O:0,R:1]: w ⊢ (finished) OK\n"
    );
    assert_eq!(done.deeds, vec!["start serve ", "run a now", "stop", "await"]);
    assert_eq!(done.result.values, vec![StatusResultValue::Passed]);
    assert!(done.result.failed_steps_prefixes.is_empty());
}

#[test]
fn failed_background_commands_fail_the_step() {
    let done = run(&opt(), with_background("w", "serve", single("a")), vec![PASSED, FAILED]);
    assert!(done.shown.ends_with(
        "[12:34:56; E:0,O:0,R:1]: w ⊢ (finished) ERROR\n\
         w ╔════════════════════════\n\
         w ║ ════╡ stdout ╞════\n\
         w ║ serving\n\
         w ╚════════════════════════\n"
    ));
    assert_eq!(done.result.values, vec![StatusResultValue::Passed, StatusResultValue::Error]);
    assert_eq!(done.result.failed_steps_prefixes, vec!["w"]);
}

#[test]
fn logs_of_background_commands_are_shown_if_the_foreground_fails() {
    let step = multiple("m", vec![with_background("w", "serve", single("a")), single("b")]);
    let done = run(&opt(), step, vec![FAILED, PASSED]);
    assert!(done.shown.contains("m ❯ w ║ serving\n"));
    assert_eq!(done.deeds, vec!["start serve ", "run a now", "stop", "await"]);
    assert_eq!(done.result.values, vec![StatusResultValue::Error, StatusResultValue::Passed]);
    assert_eq!(done.result.failed_steps_prefixes, vec!["m ❯ w ❯ a"]);
}

#[test]
fn background_command_lines_are_shown_if_asked_for() {
    let verbose = Opt { commands: true, ..opt() };
    let done = run(&verbose, with_background("w", "serve", single("a")), vec![PASSED, PASSED]);
    assert!(done.shown.contains("[12:34:56; E:0,O:0,R:1]: w ⊢ [serve ] (background) ...\n"));
}

#[test]
fn skipped_commands_are_all_that_a_dry_run_tells_of() {
    let dry = Opt { dry_run: true, ..opt() };
    let skipped = (StatusResultValue::Skipped, "");
    let step = multiple("m", vec![single("a"), with_background("w", "serve", single("b"))]);
    let done = run(&dry, step, vec![skipped, skipped, skipped]);
    assert_eq!(done.result.values, vec![StatusResultValue::Skipped]);
    assert!(done.shown.contains("O:2,R:0]: m } ⊢ [SKIPPED]"));
}

#[test]
fn clocks_that_run_backwards_show_no_time() {
    let mut runner = run_step(&Context::root(&opt()), single("a"), Status::new(1));
    runner = runner.next(Event::Clock { timestamp: 0, nanos: 10 }).0;
    let status = SingleStatusResult { value: StatusResultValue::Passed, logs: String::new() };
    let output = runner.next(Event::Finished { status, nanos: 5 }).1;
    assert_eq!(output.messages[0].duration(), "0ns");
}

#[test]
fn runs_need_room_for_their_completions() {
    let root = Context::root(&opt());
    assert!(fits(&root, &single("a"), &Status::new(1)));
    assert!(!fits(&root, &single("a"), &Status::new(0)));
    assert!(fits(&root.child("m"), &single("a"), &Status::new(0)));
    let step = multiple("m", vec![single("a"), single("b")]);
    assert!(fits(&root, &step, &Status::new(2)));
    assert!(!fits(&root, &step, &Status::new(1)));
    assert!(!fits(&root, &with_background("w", "b", multiple("m", vec![])), &Status::new(0)));
}

#[test]
fn tasks_come_with_their_description() {
    let task = Task { description: "wait".to_string(), task: 7 };
    assert_eq!(task.description(), "wait");
    assert_eq!(Step::Single { name: "t".to_string(), command: task }.len(), 1);
}

#[test]
fn what_was_shown_stays() {
    let step = || multiple("m", vec![single("a"), single("b")]);
    let passed = run(&opt(), step(), vec![PASSED, PASSED]);
    let failed = run(&opt(), step(), vec![PASSED, FAILED]);
    let common = "[12:34:56; E:0,O:0,R:2]: m {\n\
                  [12:34:56; E:0,O:0,R:2]: m ❯ a ⊢ OK [3s]\n\
                  [12:34:56; E:0,O:1,R:1]: m ❯ b ⊢ ";
    assert!(passed.shown.starts_with(common));
    assert!(failed.shown.starts_with(common));
    assert_ne!(passed.shown, failed.shown);
}

#[test]
fn runs_ask_for_no_more_than_their_step_gives_rise_to() {
    let step = multiple("m", vec![single("a"), with_background("w", "serve", single("b"))]);
    let mut runner = run_step(&Context::root(&opt()), step, Status::new(2));
    let mut event = Event::Clock { timestamp: 0, nanos: 0 };
    let mut requests = 0;
    loop {
        let (next, output) = runner.next(event);
        runner = next;
        requests += 1;
        let passed = SingleStatusResult { value: StatusResultValue::Passed, logs: String::new() };
        event = match output.action {
            Action::ReadClock => Event::Clock { timestamp: 0, nanos: 0 },
            Action::Start { .. } => Event::Started,
            Action::Stop => Event::Output { stdout: vec![], stderr: vec![] },
            Action::Run { .. } | Action::Await => Event::Finished { status: passed, nanos: 0 },
            Action::Done { .. } => break,
        };
    }
    // Two clock readings to enter the sub-steps and one to leave, one command, four for the
    // background command and one inside of it, and the end.
    assert_eq!(requests, 10);
}
