use runner::options::{
    BuildFunctionsServer, BuildServer, Commits, FunctionsServerVariant, RustBinaryOptions,
    ServerVariant,
};

fn build(server_variant: ServerVariant) -> BuildServer {
    BuildServer {
        server_variant,
        server_rust_toolchain: Some("nightly".to_string()),
        server_rust_target: Some("x86_64-unknown-linux-musl".to_string()),
    }
}

fn build_functions(server_variant: FunctionsServerVariant) -> BuildFunctionsServer {
    BuildFunctionsServer {
        server_variant,
        server_rust_toolchain: None,
        server_rust_target: Some("x86_64-apple-darwin".to_string()),
    }
}

#[test]
fn server_variants_are_parsed_by_name() {
    assert_eq!("base".parse(), Ok(ServerVariant::Base));
    assert_eq!("coverage".parse(), Ok(ServerVariant::Coverage));
    assert_eq!("no-introspection-client".parse(), Ok(ServerVariant::NoIntrospectionClient));
    assert_eq!("experimental".parse(), Ok(ServerVariant::Experimental));
    assert_eq!("unsafe".parse(), Ok(ServerVariant::Unsafe));
    assert_eq!(ServerVariant::from_str("unsafe"), Ok(ServerVariant::Unsafe));
}

#[test]
fn unknown_server_variants_are_refused() {
    let parsed: Result<ServerVariant, String> = "Base".parse();
    assert_eq!(parsed, Err("Failed to parse server variant Base".to_string()));
    assert_eq!(
        ServerVariant::from_str(""),
        Err("Failed to parse server variant ".to_string())
    );
}

#[test]
fn functions_server_variants_are_parsed_by_name() {
    assert_eq!("base".parse(), Ok(FunctionsServerVariant::Base));
    assert_eq!("unsafe".parse(), Ok(FunctionsServerVariant::Unsafe));
    assert_eq!(
        FunctionsServerVariant::from_str("coverage"),
        Err("Failed to parse server variant coverage".to_string())
    );
}

#[test]
fn features_follow_the_variant() {
    assert!(build(ServerVariant::Base).features().is_empty());
    assert_eq!(build(ServerVariant::NoIntrospectionClient).features(), vec!["oak-unsafe"]);
    assert_eq!(
        build(ServerVariant::Unsafe).features(),
        vec!["oak-unsafe", "oak-introspection-client"]
    );
    assert_eq!(
        build(ServerVariant::Experimental).features(),
        vec!["oak-attestation", "awskms", "gcpkms", "oak-unsafe", "oak-introspection-client"]
    );
    assert!(build_functions(FunctionsServerVariant::Base).features().is_empty());
    assert_eq!(build_functions(FunctionsServerVariant::Unsafe).features(), vec!["oak-unsafe"]);
}

#[test]
fn coverage_is_built_for_the_host() {
    let coverage = build(ServerVariant::Coverage);
    assert_eq!(coverage.features(), build(ServerVariant::Unsafe).features());
    assert_eq!(coverage.server_rust_target(), &None);
    assert!(!coverage.build_release());
    assert_eq!(coverage.server_rust_toolchain(), &Some("nightly".to_string()));
}

#[test]
fn other_variants_are_released_for_their_target() {
    let base = build(ServerVariant::Base);
    assert_eq!(base.server_rust_target(), &Some("x86_64-unknown-linux-musl".to_string()));
    assert!(base.build_release());
    let functions = build_functions(FunctionsServerVariant::Base);
    assert_eq!(functions.server_rust_target(), &Some("x86_64-apple-darwin".to_string()));
    assert_eq!(functions.server_rust_toolchain(), &None);
    assert!(functions.build_release());
}

#[test]
fn no_commits_by_default() {
    assert_eq!(Commits::default().commits, None);
}
