use std::path::PathBuf;

use runner::command::{env_passthru, inherited, Cmd, Launch, Spawn, Stream};
use runner::environment::Environment;
use runner::options::{Command, Opt};
use runner::status::StatusResultValue;
use runner::step::Runnable;

fn opt(dry_run: bool, logs: bool) -> Opt {
    Opt { dry_run, commands: false, logs, keep_going: false, cmd: Command::RunTests }
}

fn parent() -> Environment {
    let mut parent = Environment::new();
    parent.set("HOME", "/home/me");
    parent.set("PATH", "/bin");
    parent.set("SECRET", "hush");
    parent.set("EM_CACHE", "/cache");
    parent
}

fn spawned(launch: Launch) -> Spawn {
    match launch {
        Launch::Process { spawn } => spawn,
        Launch::Skip { .. } => panic!("the command was skipped"),
    }
}

fn sorted(env: &Environment) -> Vec<(String, String)> {
    let mut variables: Vec<(String, String)> =
        env.variables().iter().map(|(name, value)| (name.clone(), value.clone())).collect();
    variables.sort();
    variables
}

fn pairs(variables: &[(&str, &str)]) -> Vec<(String, String)> {
    variables.iter().map(|(name, value)| (name.to_string(), value.to_string())).collect()
}

#[test]
fn variables_are_set_once() {
    let mut env = Environment::new();
    assert_eq!(env.get("A"), None);
    env.set("A", "1");
    env.set("B", "2");
    env.set("A", "3");
    assert_eq!(env.get("A"), Some("3"));
    assert_eq!(env.get("B"), Some("2"));
    assert_eq!(env.get("a"), None);
    assert_eq!(sorted(&env), pairs(&[("A", "3"), ("B", "2")]));
    let mut other = Environment::new();
    other.set("B", "4");
    other.set("C", "5");
    env.set_all(&other);
    assert_eq!(sorted(&env.clone()), pairs(&[("A", "3"), ("B", "4"), ("C", "5")]));
}

#[test]
fn variables_pass_through_if_they_are_set() {
    let mut env = Environment::new();
    env.set("HOME", "/other");
    env_passthru(&mut env, &parent(), "HOME");
    env_passthru(&mut env, &parent(), "USER");
    assert_eq!(sorted(&env), pairs(&[("HOME", "/home/me")]));
}

#[test]
fn commands_are_described_by_their_command_line() {
    assert_eq!(Cmd::new("ls", &["-l", "/tmp"]).description(), "ls -l /tmp");
    assert_eq!(Cmd::new("ls", &[]).description(), "ls ");
}

#[test]
fn extraneous_variables_are_not_visible() {
    let spawn = spawned(Cmd::new("ls", &["-l"]).run(&opt(false, false), &parent()));
    assert_eq!(spawn.executable, "ls");
    assert_eq!(spawn.args, vec!["-l"]);
    assert!(spawn.current_dir.is_none());
    assert_eq!(
        sorted(&spawn.env),
        pairs(&[
            ("EM_CACHE", "/cache"),
            ("HOME", "/home/me"),
            ("PATH", "/bin"),
            ("RUST_BACKTRACE", "1"),
            ("RUST_LOG", "info"),
        ])
    );
}

#[test]
fn inherited_variables_are_visible() {
    assert_eq!(
        inherited(),
        vec![
            "HOME",
            "PATH",
            "USER",
            "PYTHONPATH",
            "RUSTUP_HOME",
            "CARGO_HOME",
            "CARGO_INCREMENTAL",
            "RUSTC_WRAPPER",
            "EMSDK",
            "EM_CACHE",
            "EM_CONFIG",
            "PKG_CONFIG_ALLOW_CROSS",
            "OPENSSL_STATIC",
            "OPENSSL_DIR",
        ]
    );
    let mut parent = Environment::new();
    for name in inherited() {
        parent.set(name, "v");
    }
    parent.set("RUST_LOG", "debug");
    parent.set("RUST_BACKTRACE", "0");
    let spawn = spawned(Cmd::new("ls", &[]).run(&opt(false, false), &parent));
    for name in inherited() {
        assert_eq!(spawn.env.get(name), Some("v"));
    }
    assert_eq!(spawn.env.get("RUST_LOG"), Some("debug"));
    assert_eq!(spawn.env.get("RUST_BACKTRACE"), Some("1"));
}

#[test]
fn own_variables_come_first() {
    let mut own = Environment::new();
    own.set("PATH", "/own");
    own.set("RUST_BACKTRACE", "full");
    own.set("MINE", "yes");
    let cmd = Cmd::new_with_env("ls", &[], &own);
    let spawn = spawned(cmd.run(&opt(false, false), &parent()));
    assert_eq!(spawn.env.get("PATH"), Some("/own"));
    assert_eq!(spawn.env.get("RUST_BACKTRACE"), Some("full"));
    assert_eq!(spawn.env.get("MINE"), Some("yes"));
    assert_eq!(spawn.env.get("HOME"), Some("/home/me"));
}

#[test]
fn commands_run_in_their_directory() {
    let directory = PathBuf::from("/tmp/there");
    let cmd = Cmd::new_in_dir("ls", &["-a"], &directory);
    let spawn = spawned(cmd.run(&opt(false, false), &parent()));
    assert_eq!(spawn.current_dir, Some(directory));
    assert_eq!(spawn.args, vec!["-a"]);
}

#[test]
fn streams_are_inherited_with_logs_only() {
    let quiet = spawned(Cmd::new("ls", &[]).run(&opt(false, false), &parent()));
    assert_eq!(quiet.stdin, Stream::Null);
    assert_eq!(quiet.stdout, Stream::Piped);
    assert_eq!(quiet.stderr, Stream::Piped);
    let loud = spawned(Cmd::new("ls", &[]).run(&opt(false, true), &parent()));
    assert_eq!(loud.stdin, Stream::Null);
    assert_eq!(loud.stdout, Stream::Inherit);
    assert_eq!(loud.stderr, Stream::Inherit);
}

#[test]
fn dry_runs_skip_commands() {
    match Cmd::new("ls", &[]).run(&opt(true, true), &parent()) {
        Launch::Skip { result } => {
            assert_eq!(result.value, StatusResultValue::Skipped);
            assert_eq!(result.logs, "");
        }
        Launch::Process { .. } => panic!("the command was not skipped"),
    }
}
