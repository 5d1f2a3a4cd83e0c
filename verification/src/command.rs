//! Commands, and how they are launched.

use std::path::PathBuf;

use vstd::prelude::*;
use vstd::string::*;

use crate::environment::Environment;
use crate::options::Opt;
use crate::status::{SingleStatusResult, StatusResultValue};
use crate::step::Runnable;
use crate::text::{join, views};
#[allow(unused_imports)]
use crate::text::{joined, joining_distributes, str_views};

verus! {

/// A path in the file system, which is only handed on.
#[verifier::external_type_specification]
#[verifier::external_body]
pub struct PathBufType(std::path::PathBuf);

/// `PathBuf::clone` returns the same path.
pub assume_specification[ <std::path::PathBuf as Clone>::clone ](
    path: &std::path::PathBuf,
) -> (copy: std::path::PathBuf)
    ensures
        copy == *path,
;

/// A single command.
pub struct Cmd {
    pub executable: String,
    pub args: Vec<String>,
    pub env: Environment,
    pub current_dir: Option<PathBuf>,
}

/// What a stream of a process is connected to.
#[derive(PartialEq, Eq, Clone, Copy, Debug, Structural)]
pub enum Stream {
    /// Nothing.
    Null,
    /// The stream of the runner itself.
    Inherit,
    /// A pipe, from which the runner reads.
    Piped,
}

/// A process that is to be spawned. It sees no other environment variables than those given.
pub struct Spawn {
    pub executable: String,
    pub args: Vec<String>,
    pub env: Environment,
    pub current_dir: Option<PathBuf>,
    pub stdin: Stream,
    pub stdout: Stream,
    pub stderr: Stream,
}

/// How a command is launched.
pub enum Launch {
    /// Not at all: the result is known.
    Skip { result: SingleStatusResult },
    /// As a process.
    Process { spawn: Spawn },
}

/// The names of the environment variables that a command inherits, where they are set.
pub open spec fn inherited_names() -> Seq<Seq<char>> {
    seq![
        "HOME"@,
        "PATH"@,
        "USER"@,
        "PYTHONPATH"@,
        "RUSTUP_HOME"@,
        "CARGO_HOME"@,
        "CARGO_INCREMENTAL"@,
        "RUSTC_WRAPPER"@,
        "EMSDK"@,
        "EM_CACHE"@,
        "EM_CONFIG"@,
        "PKG_CONFIG_ALLOW_CROSS"@,
        "OPENSSL_STATIC"@,
        "OPENSSL_DIR"@,
    ]
}

/// The environment variables that every command gets to see, if those of the runner are `parent`:
/// the inherited ones; `RUST_LOG`, which is `info` unless it is set; and `RUST_BACKTRACE`.
pub open spec fn common_environment(parent: Map<Seq<char>, Seq<char>>) -> Map<
    Seq<char>,
    Seq<char>,
> {
    parent.restrict(inherited_names().to_set()).insert(
        "RUST_LOG"@,
        if parent.contains_key("RUST_LOG"@) {
            parent["RUST_LOG"@]
        } else {
            "info"@
        },
    ).insert("RUST_BACKTRACE"@, "1"@)
}

/// The environment of a command with variables of its `own`, which take precedence.
pub open spec fn command_environment(
    parent: Map<Seq<char>, Seq<char>>,
    own: Map<Seq<char>, Seq<char>>,
) -> Map<Seq<char>, Seq<char>> {
    common_environment(parent).union_prefer_right(own)
}

/// `args`, each as a string of its own.
fn owned(args: &[&str]) -> (strings: Vec<String>)
    ensures
        views(strings@) == str_views(args@),
{
    let mut strings: Vec<String> = Vec::new();
    for i in 0..args.len()
        invariant
            views(strings@) == str_views(args@).take(i as int),
    {
        let ghost before = views(strings@);
        strings.push(args[i].to_owned());
        assert(views(strings@) =~= before.push(args@[i as int]@));
        assert(str_views(args@).take(i + 1) =~= before.push(args@[i as int]@));
    }
    assert(str_views(args@).take(args@.len() as int) =~= str_views(args@));
    strings
}

/// If environment variable `name` is set in the `parent` environment, pass it through, so that the
/// same value for `name` is visible when the command is executed.
pub fn env_passthru(env: &mut Environment, parent: &Environment, name: &str)
    ensures
        final(env)@ == if parent@.contains_key(name@) {
            old(env)@.insert(name@, parent@[name@])
        } else {
            old(env)@
        },
{
    if let Some(value) = parent.get(name) {
        env.set(name, value);
    }
}

/// The names of the environment variables that a command inherits, where they are set.
pub fn inherited() -> (names: Vec<&'static str>)
    ensures
        str_views(names@) == inherited_names(),
{
    let names = vec![
        // General variables.
        "HOME", "PATH", "USER",
        // Python variables.
        "PYTHONPATH",
        // Rust compilation variables.
        "RUSTUP_HOME", "CARGO_HOME", "CARGO_INCREMENTAL", "RUSTC_WRAPPER",
        // Emscripten variables.
        "EMSDK", "EM_CACHE", "EM_CONFIG",
        // OpenSSL variables.
        "PKG_CONFIG_ALLOW_CROSS", "OPENSSL_STATIC", "OPENSSL_DIR",
    ];
    assert(str_views(names@) =~= inherited_names());
    names
}

/// Clear the `parent` environment. Only the variables explicitly passed here are going to be
/// available to the command, to avoid accidentally depending on extraneous ones.
fn visible_environment(parent: &Environment, own: &Environment) -> (env: Environment)
    ensures
        env@ == command_environment(parent@, own@),
{
    let mut env = Environment::new();
    let names = inherited();
    let ghost listed = inherited_names();
    assert(parent@.restrict(listed.take(0).to_set()) =~= env@);
    for i in 0..names.len()
        invariant
            str_views(names@) == listed,
            env@ == parent@.restrict(listed.take(i as int).to_set()),
    {
        let ghost some = listed.take(i as int);
        assert(names@[i as int]@ == listed[i as int]);
        env_passthru(&mut env, parent, names[i]);
        assert(listed.take(i + 1) =~= some.push(listed[i as int]));
        assert(some.push(listed[i as int]).to_set() =~= some.to_set().insert(listed[i as int])) by {
            lemma_push_to_set(some, listed[i as int]);
        }
        assert(env@ =~= parent@.restrict(listed.take(i + 1).to_set()));
    }
    assert(listed.take(listed.len() as int) =~= listed);
    // Rust runtime variables.
    match parent.get("RUST_LOG") {
        Some(level) => env.set("RUST_LOG", level),
        None => env.set("RUST_LOG", "info"),
    }
    env.set("RUST_BACKTRACE", "1");
    env.set_all(own);
    env
}

impl Cmd {
    /// Whether the command is launched like that under the given options, if the environment of the
    /// runner is `parent`.
    pub open spec fn is_launched(
        self,
        opt: Opt,
        parent: Map<Seq<char>, Seq<char>>,
        launch: Launch,
    ) -> bool {
        let output = if opt.logs {
            Stream::Inherit
        } else {
            Stream::Piped
        };
        match launch {
            Launch::Skip { result } => {
                &&& opt.dry_run
                &&& result.value == StatusResultValue::Skipped
                &&& result.logs@ == Seq::<char>::empty()
            },
            Launch::Process { spawn } => {
                &&& !opt.dry_run
                &&& spawn.executable == self.executable
                &&& spawn.args == self.args
                &&& spawn.env@ == command_environment(parent, self.env@)
                &&& spawn.current_dir == self.current_dir
                &&& spawn.stdin == Stream::Null
                &&& spawn.stdout == output
                &&& spawn.stderr == output
            },
        }
    }

    /// The command, in the directory and with the environment of the runner.
    pub fn new(executable: &str, args: &[&str]) -> (cmd: Box<Self>)
        ensures
            cmd.executable@ == executable@,
            views(cmd.args@) == str_views(args@),
            cmd.env@ == Map::<Seq<char>, Seq<char>>::empty(),
            cmd.current_dir is None,
    {
        Box::new(
            Cmd {
                executable: executable.to_owned(),
                args: owned(args),
                env: Environment::new(),
                current_dir: None,
            },
        )
    }

    /// The command, with environment variables of its own.
    pub fn new_with_env(executable: &str, args: &[&str], env: &Environment) -> (cmd: Box<Self>)
        ensures
            cmd.executable@ == executable@,
            views(cmd.args@) == str_views(args@),
            cmd.env@ == env@,
            cmd.current_dir is None,
    {
        Box::new(
            Cmd {
                executable: executable.to_owned(),
                args: owned(args),
                env: env.clone(),
                current_dir: None,
            },
        )
    }

    /// The command, in the given directory.
    pub fn new_in_dir(executable: &str, args: &[&str], current_dir: &PathBuf) -> (cmd: Box<Self>)
        ensures
            cmd.executable@ == executable@,
            views(cmd.args@) == str_views(args@),
            cmd.env@ == Map::<Seq<char>, Seq<char>>::empty(),
            cmd.current_dir == Some(*current_dir),
    {
        Box::new(
            Cmd {
                executable: executable.to_owned(),
                args: owned(args),
                env: Environment::new(),
                current_dir: Some(current_dir.clone()),
            },
        )
    }

    /// Run the provided command, if the environment of the runner is `parent`: not at all in a dry
    /// run, and as a process otherwise. If the `logs` flag is enabled, the process inherits stdout
    /// and stderr from the runner.
    pub fn run(self, opt: &Opt, parent: &Environment) -> (launch: Launch)
        requires
            parent@.contains_key("HOME"@),
            parent@.contains_key("PATH"@),
        ensures
            match launch {
                Launch::Skip { result } => {
                    &&& opt.dry_run
                    &&& result.value == StatusResultValue::Skipped
                    &&& result.logs@ == Seq::<char>::empty()
                },
                Launch::Process { spawn } => {
                    &&& !opt.dry_run
                    &&& spawn.executable == self.executable
                    &&& spawn.args == self.args
                    &&& spawn.env@ == command_environment(parent@, self.env@)
                    &&& spawn.current_dir == self.current_dir
                    &&& spawn.stdin == Stream::Null
                    &&& spawn.stdout == if opt.logs {
                        Stream::Inherit
                    } else {
                        Stream::Piped
                    }
                    &&& spawn.stderr == spawn.stdout
                },
            },
            self.is_launched(*opt, parent@, launch),
    {
        let env = visible_environment(parent, &self.env);
        if opt.dry_run {
            let result = SingleStatusResult {
                value: StatusResultValue::Skipped,
                logs: String::new(),
            };
            Launch::Skip { result }
        } else {
            let output = if opt.logs {
                Stream::Inherit
            } else {
                Stream::Piped
            };
            let spawn = Spawn {
                executable: self.executable,
                args: self.args,
                env,
                current_dir: self.current_dir,
                // Close stdin to avoid hanging.
                stdin: Stream::Null,
                stdout: output,
                stderr: output,
            };
            Launch::Process { spawn }
        }
    }
}

impl Runnable for Cmd {
    open spec fn described(&self) -> Seq<char> {
        self.executable@ + " "@ + joined(views(self.args@), " "@)
    }

    /// The command line.
    fn description(&self) -> (text: String) {
        let mut text = self.executable.clone();
        text.append(" ");
        text.append(join(&self.args, " ").as_str());
        text
    }
}

/// What a sequence holds after one more element was added.
proof fn lemma_push_to_set(names: Seq<Seq<char>>, name: Seq<char>)
    ensures
        names.push(name).to_set() == names.to_set().insert(name),
{
    let pushed = names.push(name);
    assert forall|other: Seq<char>| #[trigger]
        pushed.to_set().contains(other) == names.to_set().insert(name).contains(other) by {
        if names.contains(other) {
            let i = names.index_of(other);
            assert(pushed[i] == other);
        }
        assert(pushed[names.len() as int] == name);
    }
    assert(pushed.to_set() =~= names.to_set().insert(name));
}

/// The variables of its own are visible to a command as they are.
pub proof fn own_variables_take_precedence(
    parent: Map<Seq<char>, Seq<char>>,
    own: Map<Seq<char>, Seq<char>>,
    name: Seq<char>,
)
    requires
        own.contains_key(name),
    ensures
        command_environment(parent, own).contains_pair(name, own[name]),
{
}

/// No other variables are visible to a command than those of its own, the inherited ones,
/// `RUST_LOG` and `RUST_BACKTRACE`.
pub proof fn no_variable_leaks(
    parent: Map<Seq<char>, Seq<char>>,
    own: Map<Seq<char>, Seq<char>>,
    name: Seq<char>,
)
    requires
        !own.contains_key(name),
        !inherited_names().contains(name),
        name != "RUST_LOG"@,
        name != "RUST_BACKTRACE"@,
    ensures
        !command_environment(parent, own).contains_key(name),
{
}

/// A command sees an inherited variable exactly as the runner does, unless it has one of the same
/// name of its own.
pub proof fn inherited_variables_pass_through(
    parent: Map<Seq<char>, Seq<char>>,
    own: Map<Seq<char>, Seq<char>>,
    name: Seq<char>,
)
    requires
        !own.contains_key(name),
        inherited_names().contains(name),
    ensures
        command_environment(parent, own).contains_key(name) == parent.contains_key(name),
        parent.contains_key(name) ==> command_environment(parent, own)[name] == parent[name],
{
    lemma_runtime_variables_are_not_inherited();
}

/// Whatever else is set in the environment of the runner, a command sees the same variables.
pub proof fn extraneous_variables_do_not_matter(
    parent: Map<Seq<char>, Seq<char>>,
    own: Map<Seq<char>, Seq<char>>,
    name: Seq<char>,
    value: Seq<char>,
)
    requires
        !inherited_names().contains(name),
        name != "RUST_LOG"@,
    ensures
        command_environment(parent.insert(name, value), own) == command_environment(parent, own),
{
    let names = inherited_names().to_set();
    assert(parent.insert(name, value).restrict(names) =~= parent.restrict(names));
}

/// `RUST_LOG` and `RUST_BACKTRACE` are not among the inherited variables.
proof fn lemma_runtime_variables_are_not_inherited()
    ensures
        !inherited_names().contains("RUST_LOG"@),
        !inherited_names().contains("RUST_BACKTRACE"@),
{
    reveal_strlit("RUST_LOG");
    reveal_strlit("RUST_BACKTRACE");
    reveal_strlit("HOME");
    reveal_strlit("PATH");
    reveal_strlit("USER");
    reveal_strlit("PYTHONPATH");
    reveal_strlit("RUSTUP_HOME");
    reveal_strlit("CARGO_HOME");
    reveal_strlit("CARGO_INCREMENTAL");
    reveal_strlit("RUSTC_WRAPPER");
    reveal_strlit("EMSDK");
    reveal_strlit("EM_CACHE");
    reveal_strlit("EM_CONFIG");
    reveal_strlit("PKG_CONFIG_ALLOW_CROSS");
    reveal_strlit("OPENSSL_STATIC");
    reveal_strlit("OPENSSL_DIR");
    let names = inherited_names();
    assert forall|i: int| 0 <= i < names.len() implies #[trigger] names[i] != "RUST_LOG"@
        && names[i] != "RUST_BACKTRACE"@ by {
        let name = names[i];
        assert(name.len() == 8 ==> name[0] == 'E');
        assert(name.len() == 14 ==> name[0] == 'O');
    }
}

/// Unless a command sets them itself, `RUST_LOG` is that of the runner, or `info` if that has none,
/// and `RUST_BACKTRACE` is `1`.
pub proof fn runtime_variables_are_always_set(
    parent: Map<Seq<char>, Seq<char>>,
    own: Map<Seq<char>, Seq<char>>,
)
    ensures
        ({
            let env = command_environment(parent, own);
            &&& env.contains_key("RUST_LOG"@)
            &&& env.contains_key("RUST_BACKTRACE"@)
            &&& !own.contains_key("RUST_BACKTRACE"@) ==> env["RUST_BACKTRACE"@] == "1"@
            &&& !own.contains_key("RUST_LOG"@) && parent.contains_key("RUST_LOG"@)
                ==> env["RUST_LOG"@] == parent["RUST_LOG"@]
            &&& !own.contains_key("RUST_LOG"@) && !parent.contains_key("RUST_LOG"@)
                ==> env["RUST_LOG"@] == "info"@
        }),
{
    reveal_strlit("RUST_LOG");
    reveal_strlit("RUST_BACKTRACE");
    assert("RUST_LOG"@.len() != "RUST_BACKTRACE"@.len());
}

/// A command line is the executable and the arguments with spaces between them; without arguments,
/// the executable and a space.
pub proof fn command_lines_name_all_arguments(cmd: Cmd)
    ensures
        cmd.args@.len() == 0 ==> cmd.described() == cmd.executable@ + " "@,
        cmd.args@.len() > 0 ==> cmd.described() == joined(
            seq![cmd.executable@] + views(cmd.args@),
            " "@,
        ),
{
    if cmd.args@.len() == 0 {
        assert(cmd.described() =~= cmd.executable@ + " "@);
    } else {
        joining_distributes(seq![cmd.executable@], views(cmd.args@), " "@);
    }
}

/// In a dry run a command is not launched, and otherwise it is, as it was given and with the
/// environment of a command. Its input is closed, and its output goes to the runner, or where that
/// of the runner goes if logs are to be shown.
pub proof fn commands_are_launched_as_given(
    cmd: Cmd,
    opt: Opt,
    parent: Map<Seq<char>, Seq<char>>,
    launch: Launch,
)
    requires
        cmd.is_launched(opt, parent, launch),
    ensures
        opt.dry_run <==> launch is Skip,
        launch matches Launch::Skip { result } ==> result.value == StatusResultValue::Skipped
            && result.logs@.len() == 0,
        launch matches Launch::Process { spawn } ==> {
            &&& spawn.executable@ == cmd.executable@
            &&& views(spawn.args@) == views(cmd.args@)
            &&& spawn.env@ == command_environment(parent, cmd.env@)
            &&& spawn.current_dir == cmd.current_dir
            &&& spawn.stdin == Stream::Null
            &&& opt.logs ==> spawn.stdout == Stream::Inherit && spawn.stderr == Stream::Inherit
            &&& !opt.logs ==> spawn.stdout == Stream::Piped && spawn.stderr == Stream::Piped
        },
{
}

} // verus!
