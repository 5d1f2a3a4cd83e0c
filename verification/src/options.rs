//! What the runner is asked to do: the flags that shape every run, and the subcommands.

use vstd::prelude::*;
use vstd::string::*;

use crate::text::same_text;
#[allow(unused_imports)]
use crate::text::str_views;

verus! {

/// The options of one invocation of the runner.
pub struct Opt {
    /// Do not execute commands.
    pub dry_run: bool,
    /// Print commands.
    pub commands: bool,
    /// Show logs of commands.
    pub logs: bool,
    /// Continue execution after error.
    pub keep_going: bool,
    pub cmd: Command,
}

/// The subcommands of the runner.
pub enum Command {
    RunExamples(RunExamples),
    RunFunctionsExamples(RunFunctionsExamples),
    BuildFunctionsExample(RunFunctionsExamples),
    BuildServer(BuildServer),
    BuildFunctionsServer(BuildFunctionsServer),
    Format(Commits),
    CheckFormat(Commits),
    RunTests,
    RunCargoTests(RunTestsOpt),
    RunBazelTests,
    RunTestsTsan,
    RunCargoFuzz(RunCargoFuzz),
    RunCargoDeny,
    RunCargoUdeps,
    RunCi,
    /// Generate a bash completion script.
    Completion,
}

#[derive(Debug)]
pub struct RunExamples {
    /// Application variant: [rust, cpp].
    pub application_variant: String,
    /// Path to permissions file.
    pub permissions_file: String,
    /// Name of a single example to run; if unset, run all the examples.
    pub example_name: Option<String>,
    pub build_client: BuildClient,
    pub build_server: BuildServer,
    /// Run server [default: true].
    pub run_server: Option<bool>,
    /// Additional arguments to pass to clients.
    pub client_additional_args: Vec<String>,
    /// Additional arguments to pass to server.
    pub server_additional_args: Vec<String>,
    /// Build a Docker image for the examples.
    pub build_docker: bool,
    /// Run the command only for files modified in the specified commits.
    pub commits: Commits,
}

pub struct RunFunctionsExamples {
    /// Application variant: [rust, cpp].
    pub application_variant: String,
    /// Name of a single example to run; if unset, run all the examples.
    pub example_name: Option<String>,
    pub build_client: BuildClient,
    pub build_server: BuildFunctionsServer,
    /// Run server [default: true].
    pub run_server: Option<bool>,
    /// Additional arguments to pass to clients.
    pub client_additional_args: Vec<String>,
    /// Additional arguments to pass to server.
    pub server_additional_args: Vec<String>,
    /// Build a Docker image for the examples.
    pub build_docker: bool,
    /// Run the command only for files modified in the specified commits.
    pub commits: Commits,
}

#[derive(Debug)]
pub struct Commits {
    /// Number of past commits to take into the diff.
    pub commits: Option<u8>,
}

#[derive(Debug)]
pub struct BuildClient {
    /// Client variant: [all, rust, cpp, go, nodejs, none].
    pub client_variant: String,
    /// Rust toolchain override to use for the client compilation.
    pub client_rust_toolchain: Option<String>,
    /// Rust target to use for the client compilation.
    pub client_rust_target: Option<String>,
}

#[derive(Clone, Copy, Debug, PartialEq, Eq, Structural)]
pub enum ServerVariant {
    /// Production-like server variant, without any of the features enabled
    Base,
    /// Debug server with logging and introspection client enabled
    Unsafe,
    /// Debug server with logging, but no introspection client
    NoIntrospectionClient,
    /// Similar to Unsafe, but with additional commands for running coverage
    Coverage,
    /// Debug server, with logging, introspection client, and experimental features enabled
    Experimental,
}

#[derive(Debug)]
pub struct BuildServer {
    /// Server variant: [base, coverage, unsafe, no-introspection-client, experimental].
    pub server_variant: ServerVariant,
    /// Rust toolchain override to use for the server compilation.
    pub server_rust_toolchain: Option<String>,
    /// Rust target to use for the server compilation.
    pub server_rust_target: Option<String>,
}

#[derive(Clone, Copy, Debug, PartialEq, Eq, Structural)]
pub enum FunctionsServerVariant {
    /// Production-like server variant, without any of the features enabled
    Base,
    /// Debug server with logging enabled
    Unsafe,
}

pub struct BuildFunctionsServer {
    /// Server variant: [base, unsafe].
    pub server_variant: FunctionsServerVariant,
    /// Rust toolchain override to use for the server compilation.
    pub server_rust_toolchain: Option<String>,
    /// Rust target to use for the server compilation.
    pub server_rust_target: Option<String>,
}

pub struct RunTestsOpt {
    /// Remove generated files after running tests for each crate.
    pub cleanup: bool,
    /// Run benchmarks.
    pub benches: bool,
    /// Run the command only for the specified diffs.
    pub commits: Commits,
}

pub struct RunCargoFuzz {
    /// Name of a specific crate with fuzz-target. If not specified, runs all fuzz targets for all
    /// crates.
    pub crate_name: Option<String>,
    /// Name of a specific fuzz-target. If not specified, runs all fuzz targets.
    pub target_name: Option<String>,
    /// Whether to rebuild the dependencies.
    pub build_deps: bool,
    /// Additional `libFuzzer` arguments passed through to the binary
    pub args: Vec<String>,
}

impl Opt {
    /// Whether two option sets ask for the same: equal field by field, argument lists by content.
    pub open spec fn same_as(self, other: Opt) -> bool {
        &&& self.dry_run == other.dry_run
        &&& self.commands == other.commands
        &&& self.logs == other.logs
        &&& self.keep_going == other.keep_going
        &&& self.cmd.same_as(other.cmd)
    }
}

impl Clone for Opt {
    fn clone(&self) -> (copy: Self)
        ensures
            copy.same_as(*self),
    {
        Opt {
            dry_run: self.dry_run,
            commands: self.commands,
            logs: self.logs,
            keep_going: self.keep_going,
            cmd: self.cmd.clone(),
        }
    }
}

impl Command {
    /// Whether two subcommands are the same, argument lists by content.
    pub open spec fn same_as(self, other: Command) -> bool {
        match (self, other) {
            (Command::RunExamples(a), Command::RunExamples(b)) => a.same_as(b),
            (Command::RunFunctionsExamples(a), Command::RunFunctionsExamples(b)) => a.same_as(b),
            (Command::BuildFunctionsExample(a), Command::BuildFunctionsExample(b)) => a.same_as(b),
            (Command::RunCargoFuzz(a), Command::RunCargoFuzz(b)) => a.same_as(b),
            _ => self == other,
        }
    }
}

impl Clone for Command {
    fn clone(&self) -> (copy: Self)
        ensures
            copy.same_as(*self),
    {
        match self {
            Command::RunExamples(run) => Command::RunExamples(run.clone()),
            Command::RunFunctionsExamples(run) => Command::RunFunctionsExamples(run.clone()),
            Command::BuildFunctionsExample(run) => Command::BuildFunctionsExample(run.clone()),
            Command::BuildServer(build) => Command::BuildServer(build.clone()),
            Command::BuildFunctionsServer(build) => Command::BuildFunctionsServer(build.clone()),
            Command::Format(commits) => Command::Format(commits.clone()),
            Command::CheckFormat(commits) => Command::CheckFormat(commits.clone()),
            Command::RunTests => Command::RunTests,
            Command::RunCargoTests(run) => Command::RunCargoTests(run.clone()),
            Command::RunBazelTests => Command::RunBazelTests,
            Command::RunTestsTsan => Command::RunTestsTsan,
            Command::RunCargoFuzz(run) => Command::RunCargoFuzz(run.clone()),
            Command::RunCargoDeny => Command::RunCargoDeny,
            Command::RunCargoUdeps => Command::RunCargoUdeps,
            Command::RunCi => Command::RunCi,
            Command::Completion => Command::Completion,
        }
    }
}

impl RunExamples {
    /// Whether two values are the same, argument lists by content.
    pub open spec fn same_as(self, other: RunExamples) -> bool {
        &&& self.application_variant == other.application_variant
        &&& self.permissions_file == other.permissions_file
        &&& self.example_name == other.example_name
        &&& self.build_client == other.build_client
        &&& self.build_server == other.build_server
        &&& self.run_server == other.run_server
        &&& self.client_additional_args@ == other.client_additional_args@
        &&& self.server_additional_args@ == other.server_additional_args@
        &&& self.build_docker == other.build_docker
        &&& self.commits == other.commits
    }
}

impl Clone for RunExamples {
    fn clone(&self) -> (copy: Self)
        ensures
            copy.same_as(*self),
    {
        let copy = RunExamples {
            application_variant: self.application_variant.clone(),
            permissions_file: self.permissions_file.clone(),
            example_name: self.example_name.clone(),
            build_client: self.build_client.clone(),
            build_server: self.build_server.clone(),
            run_server: self.run_server,
            client_additional_args: self.client_additional_args.clone(),
            server_additional_args: self.server_additional_args.clone(),
            build_docker: self.build_docker,
            commits: self.commits.clone(),
        };
        assert(copy.client_additional_args@ =~= self.client_additional_args@);
        assert(copy.server_additional_args@ =~= self.server_additional_args@);
        copy
    }
}

impl RunFunctionsExamples {
    /// Whether two values are the same, argument lists by content.
    pub open spec fn same_as(self, other: RunFunctionsExamples) -> bool {
        &&& self.application_variant == other.application_variant
        &&& self.example_name == other.example_name
        &&& self.build_client == other.build_client
        &&& self.build_server == other.build_server
        &&& self.run_server == other.run_server
        &&& self.client_additional_args@ == other.client_additional_args@
        &&& self.server_additional_args@ == other.server_additional_args@
        &&& self.build_docker == other.build_docker
        &&& self.commits == other.commits
    }
}

impl Clone for RunFunctionsExamples {
    fn clone(&self) -> (copy: Self)
        ensures
            copy.same_as(*self),
    {
        let copy = RunFunctionsExamples {
            application_variant: self.application_variant.clone(),
            example_name: self.example_name.clone(),
            build_client: self.build_client.clone(),
            build_server: self.build_server.clone(),
            run_server: self.run_server,
            client_additional_args: self.client_additional_args.clone(),
            server_additional_args: self.server_additional_args.clone(),
            build_docker: self.build_docker,
            commits: self.commits.clone(),
        };
        assert(copy.client_additional_args@ =~= self.client_additional_args@);
        assert(copy.server_additional_args@ =~= self.server_additional_args@);
        copy
    }
}

impl Clone for Commits {
    fn clone(&self) -> (copy: Self)
        ensures
            copy == *self,
    {
        Commits { commits: self.commits }
    }
}

impl Default for Commits {
    fn default() -> (commits: Self)
        ensures
            commits == (Commits { commits: None }),
    {
        Commits { commits: None }
    }
}

impl Clone for BuildClient {
    fn clone(&self) -> (copy: Self)
        ensures
            copy == *self,
    {
        BuildClient {
            client_variant: self.client_variant.clone(),
            client_rust_toolchain: self.client_rust_toolchain.clone(),
            client_rust_target: self.client_rust_target.clone(),
        }
    }
}

impl Clone for BuildServer {
    fn clone(&self) -> (copy: Self)
        ensures
            copy == *self,
    {
        BuildServer {
            server_variant: self.server_variant,
            server_rust_toolchain: self.server_rust_toolchain.clone(),
            server_rust_target: self.server_rust_target.clone(),
        }
    }
}

impl Clone for BuildFunctionsServer {
    fn clone(&self) -> (copy: Self)
        ensures
            copy == *self,
    {
        BuildFunctionsServer {
            server_variant: self.server_variant,
            server_rust_toolchain: self.server_rust_toolchain.clone(),
            server_rust_target: self.server_rust_target.clone(),
        }
    }
}

impl Clone for RunTestsOpt {
    fn clone(&self) -> (copy: Self)
        ensures
            copy == *self,
    {
        RunTestsOpt { cleanup: self.cleanup, benches: self.benches, commits: self.commits.clone() }
    }
}

impl RunCargoFuzz {
    /// Whether two values are the same, argument lists by content.
    pub open spec fn same_as(self, other: RunCargoFuzz) -> bool {
        &&& self.crate_name == other.crate_name
        &&& self.target_name == other.target_name
        &&& self.build_deps == other.build_deps
        &&& self.args@ == other.args@
    }
}

impl Clone for RunCargoFuzz {
    fn clone(&self) -> (copy: Self)
        ensures
            copy.same_as(*self),
    {
        let copy = RunCargoFuzz {
            crate_name: self.crate_name.clone(),
            target_name: self.target_name.clone(),
            build_deps: self.build_deps,
            args: self.args.clone(),
        };
        assert(copy.args@ =~= self.args@);
        copy
    }
}

impl ServerVariant {
    /// The name of the variant on the command line.
    pub open spec fn name(self) -> Seq<char> {
        match self {
            ServerVariant::Base => "base"@,
            ServerVariant::Coverage => "coverage"@,
            ServerVariant::NoIntrospectionClient => "no-introspection-client"@,
            ServerVariant::Experimental => "experimental"@,
            ServerVariant::Unsafe => "unsafe"@,
        }
    }

    /// The cargo features of the variant.
    pub open spec fn feature_names(self) -> Seq<Seq<char>> {
        match self {
            ServerVariant::Base => seq![],
            ServerVariant::NoIntrospectionClient => seq!["oak-unsafe"@],
            ServerVariant::Unsafe => seq!["oak-unsafe"@, "oak-introspection-client"@],
            ServerVariant::Coverage => seq!["oak-unsafe"@, "oak-introspection-client"@],
            ServerVariant::Experimental => seq![
                "oak-attestation"@,
                "awskms"@,
                "gcpkms"@,
                "oak-unsafe"@,
                "oak-introspection-client"@,
            ],
        }
    }

    /// The variant of the given name.
    pub fn from_str(variant: &str) -> (parsed: Result<Self, String>)
        ensures
            match parsed {
                Ok(parsed) => parsed.name() == variant@,
                Err(message) => {
                    &&& message@ == parse_failure(variant@)
                    &&& forall|other: ServerVariant| #[trigger] other.name() != variant@
                },
            },
            forall|other: ServerVariant| #[trigger]
                other.name() == variant@ ==> parsed == Ok::<ServerVariant, String>(other),
    {
        let parsed = if same_text(variant, "base") {
            Ok(ServerVariant::Base)
        } else if same_text(variant, "coverage") {
            Ok(ServerVariant::Coverage)
        } else if same_text(variant, "no-introspection-client") {
            Ok(ServerVariant::NoIntrospectionClient)
        } else if same_text(variant, "experimental") {
            Ok(ServerVariant::Experimental)
        } else if same_text(variant, "unsafe") {
            Ok(ServerVariant::Unsafe)
        } else {
            Err(parse_failure_text(variant))
        };
        proof {
            if let Ok(found) = parsed {
                assert forall|other: ServerVariant| #[trigger]
                    other.name() == variant@ implies other == found by {
                    server_variant_names_differ(found, other);
                }
            }
        }
        parsed
    }
}

impl std::str::FromStr for ServerVariant {
    type Err = String;

    fn from_str(variant: &str) -> (parsed: Result<Self, Self::Err>)
        ensures
            match parsed {
                Ok(parsed) => parsed.name() == variant@,
                Err(message) => {
                    &&& message@ == parse_failure(variant@)
                    &&& forall|other: ServerVariant| #[trigger] other.name() != variant@
                },
            },
            forall|other: ServerVariant| #[trigger]
                other.name() == variant@ ==> parsed == Ok::<ServerVariant, String>(other),
    {
        ServerVariant::from_str(variant)
    }
}

impl FunctionsServerVariant {
    /// The name of the variant on the command line.
    pub open spec fn name(self) -> Seq<char> {
        match self {
            FunctionsServerVariant::Base => "base"@,
            FunctionsServerVariant::Unsafe => "unsafe"@,
        }
    }

    /// The variant of the given name.
    pub fn from_str(variant: &str) -> (parsed: Result<Self, String>)
        ensures
            match parsed {
                Ok(parsed) => parsed.name() == variant@,
                Err(message) => {
                    &&& message@ == parse_failure(variant@)
                    &&& forall|other: FunctionsServerVariant| #[trigger] other.name() != variant@
                },
            },
            forall|other: FunctionsServerVariant| #[trigger]
                other.name() == variant@ ==> parsed == Ok::<FunctionsServerVariant, String>(other),
    {
        let parsed = if same_text(variant, "base") {
            Ok(FunctionsServerVariant::Base)
        } else if same_text(variant, "unsafe") {
            Ok(FunctionsServerVariant::Unsafe)
        } else {
            Err(parse_failure_text(variant))
        };
        proof {
            if let Ok(found) = parsed {
                assert forall|other: FunctionsServerVariant| #[trigger]
                    other.name() == variant@ implies other == found by {
                    functions_server_variant_names_differ(found, other);
                }
            }
        }
        parsed
    }
}

impl std::str::FromStr for FunctionsServerVariant {
    type Err = String;

    fn from_str(variant: &str) -> (parsed: Result<Self, Self::Err>)
        ensures
            match parsed {
                Ok(parsed) => parsed.name() == variant@,
                Err(message) => {
                    &&& message@ == parse_failure(variant@)
                    &&& forall|other: FunctionsServerVariant| #[trigger] other.name() != variant@
                },
            },
            forall|other: FunctionsServerVariant| #[trigger]
                other.name() == variant@ ==> parsed == Ok::<FunctionsServerVariant, String>(other),
    {
        FunctionsServerVariant::from_str(variant)
    }
}

/// What is said of a name that is not that of a server variant.
pub open spec fn parse_failure(variant: Seq<char>) -> Seq<char> {
    "Failed to parse server variant "@ + variant
}

/// What is said of a name that is not that of a server variant.
fn parse_failure_text(variant: &str) -> (message: String)
    ensures
        message@ == parse_failure(variant@),
{
    let mut message = "Failed to parse server variant ".to_owned();
    message.append(variant);
    message
}

/// Two server variants of the same name are the same, so that a variant is parsed from its own name
/// to itself and to nothing else.
pub proof fn server_variant_names_differ(a: ServerVariant, b: ServerVariant)
    ensures
        a.name() == b.name() ==> a == b,
{
    reveal_strlit("base");
    reveal_strlit("coverage");
    reveal_strlit("no-introspection-client");
    reveal_strlit("experimental");
    reveal_strlit("unsafe");
    if a.name() == b.name() {
        assert(a.name().len() == b.name().len());
    }
}

/// Two variants of the functions server of the same name are the same.
pub proof fn functions_server_variant_names_differ(
    a: FunctionsServerVariant,
    b: FunctionsServerVariant,
)
    ensures
        a.name() == b.name() ==> a == b,
{
    reveal_strlit("base");
    reveal_strlit("unsafe");
    if a.name() == b.name() {
        assert(a.name().len() == b.name().len());
    }
}

/// How a binary is built.
pub trait RustBinaryOptions {
    /// The cargo features to build with.
    spec fn feature_names(&self) -> Seq<Seq<char>>;

    /// The override of the toolchain, if any.
    spec fn toolchain(&self) -> Option<String>;

    /// The target to build for, if it is not that of the host.
    spec fn target(&self) -> Option<String>;

    /// Whether release artifacts are built, rather than debug ones.
    spec fn builds_release(&self) -> bool;

    fn features(&self) -> (features: Vec<&str>)
        ensures
            str_views(features@) == self.feature_names(),
    ;

    fn server_rust_toolchain(&self) -> (toolchain: &Option<String>)
        ensures
            *toolchain == self.toolchain(),
    ;

    fn server_rust_target(&self) -> (target: &Option<String>)
        ensures
            *target == self.target(),
    ;

    fn build_release(&self) -> (release: bool)
        ensures
            release == self.builds_release(),
    ;
}

impl RustBinaryOptions for BuildFunctionsServer {
    open spec fn feature_names(&self) -> Seq<Seq<char>> {
        match self.server_variant {
            FunctionsServerVariant::Unsafe => seq!["oak-unsafe"@],
            FunctionsServerVariant::Base => seq![],
        }
    }

    open spec fn toolchain(&self) -> Option<String> {
        self.server_rust_toolchain
    }

    open spec fn target(&self) -> Option<String> {
        self.server_rust_target
    }

    open spec fn builds_release(&self) -> bool {
        true
    }

    fn features(&self) -> (features: Vec<&str>) {
        let mut features: Vec<&str> = Vec::new();
        if let FunctionsServerVariant::Unsafe = self.server_variant {
            features.push("oak-unsafe");
        }
        assert(str_views(features@) =~= self.feature_names());
        features
    }

    fn server_rust_toolchain(&self) -> (toolchain: &Option<String>) {
        &self.server_rust_toolchain
    }

    fn server_rust_target(&self) -> (target: &Option<String>) {
        &self.server_rust_target
    }

    fn build_release(&self) -> (release: bool) {
        true
    }
}

impl RustBinaryOptions for BuildServer {
    open spec fn feature_names(&self) -> Seq<Seq<char>> {
        self.server_variant.feature_names()
    }

    open spec fn toolchain(&self) -> Option<String> {
        self.server_rust_toolchain
    }

    // If building in coverage mode, use the default target from the host.
    open spec fn target(&self) -> Option<String> {
        if self.server_variant == ServerVariant::Coverage {
            None
        } else {
            self.server_rust_target
        }
    }

    // For the coverage server variant, build debug artifacts; for all others release artifacts.
    open spec fn builds_release(&self) -> bool {
        self.server_variant != ServerVariant::Coverage
    }

    fn features(&self) -> (features: Vec<&str>) {
        let mut features: Vec<&str> = Vec::new();
        match self.server_variant {
            ServerVariant::Base => {},
            ServerVariant::NoIntrospectionClient => {
                features.push("oak-unsafe");
            },
            ServerVariant::Unsafe | ServerVariant::Coverage => {
                features.push("oak-unsafe");
                features.push("oak-introspection-client");
            },
            ServerVariant::Experimental => {
                features.push("oak-attestation");
                features.push("awskms");
                features.push("gcpkms");
                features.push("oak-unsafe");
                features.push("oak-introspection-client");
            },
        }
        assert(str_views(features@) =~= self.feature_names());
        features
    }

    fn server_rust_toolchain(&self) -> (toolchain: &Option<String>) {
        &self.server_rust_toolchain
    }

    fn server_rust_target(&self) -> (target: &Option<String>) {
        match self.server_variant {
            ServerVariant::Coverage => &None,
            _ => &self.server_rust_target,
        }
    }

    fn build_release(&self) -> (release: bool) {
        match self.server_variant {
            ServerVariant::Coverage => false,
            _ => true,
        }
    }
}

/// The production-like variants are built without any features, and every other one in unsafe
/// (debug) mode, with the introspection client unless the variant is the one without it.
pub proof fn debug_features_follow_the_variant(build: BuildServer)
    ensures
        build.feature_names().len() == 0 <==> build.server_variant == ServerVariant::Base,
        build.server_variant != ServerVariant::Base ==> build.feature_names().contains(
            "oak-unsafe"@,
        ),
        build.feature_names().contains("oak-introspection-client"@) <==> (build.server_variant
            == ServerVariant::Unsafe || build.server_variant == ServerVariant::Coverage
            || build.server_variant == ServerVariant::Experimental),
{
    let features = build.feature_names();
    reveal_strlit("oak-unsafe");
    reveal_strlit("oak-introspection-client");
    match build.server_variant {
        ServerVariant::Base => {},
        ServerVariant::NoIntrospectionClient => {
            assert(features[0] == "oak-unsafe"@);
        },
        ServerVariant::Unsafe | ServerVariant::Coverage => {
            assert(features[0] == "oak-unsafe"@);
            assert(features[1] == "oak-introspection-client"@);
        },
        ServerVariant::Experimental => {
            assert(features[3] == "oak-unsafe"@);
            assert(features[4] == "oak-introspection-client"@);
        },
    }
}

/// The coverage variant is similar to the unsafe one: it has the same features. It differs in that
/// it is built for the host, and without optimisation.
pub proof fn coverage_is_unsafe_on_the_host(coverage: BuildServer, other: BuildServer)
    requires
        coverage.server_variant == ServerVariant::Coverage,
        other.server_variant == ServerVariant::Unsafe,
    ensures
        coverage.feature_names() == other.feature_names(),
        coverage.target() is None,
        !coverage.builds_release(),
        other.builds_release(),
{
}

/// Except for coverage, a server is built for the target that was asked for, and always with the
/// toolchain that was asked for.
pub proof fn targets_and_toolchains_are_as_asked_for(
    server: BuildServer,
    functions: BuildFunctionsServer,
)
    ensures
        server.toolchain() == server.server_rust_toolchain,
        server.server_variant != ServerVariant::Coverage ==> server.target()
            == server.server_rust_target && server.builds_release(),
        functions.toolchain() == functions.server_rust_toolchain,
        functions.target() == functions.server_rust_target,
        functions.builds_release(),
        functions.server_variant == FunctionsServerVariant::Base
            <==> functions.feature_names().len() == 0,
        functions.feature_names().contains("oak-unsafe"@) <==> functions.server_variant
            == FunctionsServerVariant::Unsafe,
{
    if functions.server_variant == FunctionsServerVariant::Unsafe {
        assert(functions.feature_names()[0] == "oak-unsafe"@);
    }
}

/// What is said of a name that is not that of a variant ends in that name.
pub proof fn failures_name_what_was_given(variant: Seq<char>)
    ensures
        parse_failure(variant).take(31) == "Failed to parse server variant "@,
        parse_failure(variant).skip(31) == variant,
{
    reveal_strlit("Failed to parse server variant ");
    assert(parse_failure(variant).take(31) =~= "Failed to parse server variant "@);
    assert(parse_failure(variant).skip(31) =~= variant);
}

/// Options that are the same agree in all flags and in the subcommand.
pub proof fn same_options_agree(a: Opt, b: Opt)
    ensures
        a.same_as(a),
        a.same_as(b) ==> {
            &&& a.dry_run == b.dry_run
            &&& a.commands == b.commands
            &&& a.logs == b.logs
            &&& a.keep_going == b.keep_going
            &&& match (a.cmd, b.cmd) {
                (Command::RunExamples(x), Command::RunExamples(y)) => x.same_as(y),
                (Command::RunFunctionsExamples(x), Command::RunFunctionsExamples(y)) => x.same_as(
                    y,
                ),
                (Command::BuildFunctionsExample(x), Command::BuildFunctionsExample(y)) => {
                    x.same_as(y)
                },
                (Command::RunCargoFuzz(x), Command::RunCargoFuzz(y)) => x.same_as(y),
                _ => a.cmd == b.cmd,
            }
        },
{
}

/// Subcommands that are the same agree in every option, and in every one of the arguments that are
/// passed on.
pub proof fn same_arguments_agree(
    a: RunExamples,
    b: RunExamples,
    c: RunFunctionsExamples,
    d: RunFunctionsExamples,
    e: RunCargoFuzz,
    f: RunCargoFuzz,
)
    ensures
        a.same_as(b) ==> {
            &&& a.application_variant@ == b.application_variant@
            &&& a.permissions_file@ == b.permissions_file@
            &&& a.example_name == b.example_name
            &&& a.build_client == b.build_client
            &&& a.build_server == b.build_server
            &&& a.run_server == b.run_server
            &&& a.client_additional_args@ == b.client_additional_args@
            &&& a.server_additional_args@ == b.server_additional_args@
            &&& a.build_docker == b.build_docker
            &&& a.commits == b.commits
        },
        c.same_as(d) ==> {
            &&& c.application_variant@ == d.application_variant@
            &&& c.example_name == d.example_name
            &&& c.build_client == d.build_client
            &&& c.build_server == d.build_server
            &&& c.run_server == d.run_server
            &&& c.client_additional_args@ == d.client_additional_args@
            &&& c.server_additional_args@ == d.server_additional_args@
            &&& c.build_docker == d.build_docker
            &&& c.commits == d.commits
        },
        e.same_as(f) ==> {
            &&& e.crate_name == f.crate_name
            &&& e.target_name == f.target_name
            &&& e.build_deps == f.build_deps
            &&& e.args@ == f.args@
        },
{
}

} // verus!
