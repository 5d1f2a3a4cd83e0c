use std::collections::HashMap;
use std::path::PathBuf;

use runner::manifest::{
    manifest_in_directory, with_toml_path, CargoBinary, CargoManifest, Dependency, DependencySpec,
};

fn text(version: &str) -> Dependency {
    Dependency::Text(version.to_string())
}

fn json(path: Option<&str>) -> Dependency {
    Dependency::Json(DependencySpec { path: path.map(|path| path.to_string()) })
}

fn table(dependencies: Vec<(&str, Dependency)>) -> HashMap<String, Dependency> {
    dependencies.into_iter().map(|(name, spec)| (name.to_string(), spec)).collect()
}

#[test]
fn manifests_stand_in_their_directory() {
    assert_eq!(manifest_in_directory("../a"), "../a/Cargo.toml");
    for directory in ["", "/", ".", "a", "a/", "a//", "/a/b", "../a.b", "à/é"] {
        let mut path = PathBuf::from(directory);
        path.push("Cargo.toml");
        assert_eq!(manifest_in_directory(directory), path.to_str().unwrap());
    }
}

#[test]
fn only_dependencies_with_a_path_have_one() {
    let dependencies =
        vec![text("1.0"), json(Some("../b")), json(None), json(Some("../a/")), json(Some("../b"))];
    assert_eq!(
        with_toml_path(&dependencies),
        vec!["../b/Cargo.toml", "../a/Cargo.toml", "../b/Cargo.toml"]
    );
    assert!(with_toml_path(&vec![]).is_empty());
}

#[test]
fn manifests_are_listed_in_the_order_of_the_dependencies() {
    let first = || vec![json(Some("b")), text("1")];
    let second = || vec![json(Some("a")), json(None)];
    let mut both = first();
    both.extend(second());
    let mut expected = with_toml_path(&first());
    expected.extend(with_toml_path(&second()));
    assert_eq!(with_toml_path(&both), expected);
    assert_eq!(expected, vec!["b/Cargo.toml", "a/Cargo.toml"]);
}

#[test]
fn all_kinds_of_dependencies_are_listed_in_turn() {
    let manifest = CargoManifest {
        bin: vec![CargoBinary { name: "main".to_string() }],
        dependencies: table(vec![("a", json(Some("../a"))), ("log", text("0.4"))]),
        dev_dependencies: table(vec![("c", json(Some("../c"))), ("d", json(None))]),
        build_dependencies: table(vec![("b", json(Some("../b")))]),
    };
    assert_eq!(
        manifest.all_dependencies_with_toml_path(),
        vec!["../a/Cargo.toml", "../c/Cargo.toml", "../b/Cargo.toml"]
    );
}

#[test]
fn every_dependency_with_a_path_is_listed() {
    let manifest = CargoManifest {
        bin: vec![],
        dependencies: table(vec![
            ("a", json(Some("../a"))),
            ("b", json(Some("../b"))),
            ("c", json(Some("../b"))),
            ("d", text("1")),
        ]),
        dev_dependencies: HashMap::new(),
        build_dependencies: HashMap::new(),
    };
    let mut paths = manifest.all_dependencies_with_toml_path();
    paths.sort();
    assert_eq!(paths, vec!["../a/Cargo.toml", "../b/Cargo.toml", "../b/Cargo.toml"]);
}
