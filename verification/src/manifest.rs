//! Cargo manifests: the manifests of the local crates that a crate depends on.

use std::collections::HashMap;

use vstd::prelude::*;
use vstd::string::*;

use crate::text::views;

verus! {

/// Partial representation of Cargo manifest files.
///
/// Only the fields that are required for extracting specific information (e.g., names of fuzz
/// targets) are part of it.
#[derive(Debug)]
pub struct CargoManifest {
    pub bin: Vec<CargoBinary>,
    pub dependencies: HashMap<String, Dependency>,
    pub dev_dependencies: HashMap<String, Dependency>,
    pub build_dependencies: HashMap<String, Dependency>,
}

/// Partial information about a Cargo binary, as it stands in a Cargo manifest.
#[derive(Debug)]
pub struct CargoBinary {
    pub name: String,
}

/// Partial representation of a dependency in a `Cargo.toml` file.
#[derive(Debug, PartialEq, PartialOrd)]
pub enum Dependency {
    /// Plaintext specification of a dependency with only the version number.
    Text(String),
    /// Json specification of a dependency.
    Json(DependencySpec),
}

/// Partial representation of a Json specification of a dependency in a `Cargo.toml` file.
#[derive(Debug, PartialEq, PartialOrd)]
pub struct DependencySpec {
    pub path: Option<String>,
}

/// Struct representing config files for fuzzing.
#[derive(Debug)]
pub struct FuzzConfig {
    pub examples: Vec<FuzzableExample>,
}

/// Config for building an example for fuzzing.
#[derive(Debug)]
pub struct FuzzableExample {
    /// Name of the example
    pub name: String,
    /// Path to the Cargo.toml file for the example.
    pub manifest_path: String,
    /// Path to desired location of the .wasm file.
    pub out_dir: String,
}

/// The path of the file `Cargo.toml` in a directory. A slash is put in between, unless the path of
/// the directory is empty or ends in one.
pub open spec fn in_directory(directory: Seq<char>) -> Seq<char> {
    if directory.len() == 0 || directory.last() == '/' {
        directory + "Cargo.toml"@
    } else {
        directory + "/"@ + "Cargo.toml"@
    }
}

impl Dependency {
    /// The path of the manifest of the dependency, if its specification gives a path.
    pub open spec fn manifest(self) -> Option<Seq<char>> {
        match self {
            Dependency::Text(_) => None,
            Dependency::Json(spec) => match spec.path {
                Some(path) => Some(in_directory(path@)),
                None => None,
            },
        }
    }
}

/// The paths of the manifests of those dependencies that have one, in order.
pub open spec fn manifests(dependencies: Seq<Dependency>) -> Seq<Seq<char>>
    decreases dependencies.len(),
{
    if dependencies.len() == 0 {
        Seq::empty()
    } else {
        match dependencies.last().manifest() {
            Some(path) => manifests(dependencies.drop_last()).push(path),
            None => manifests(dependencies.drop_last()),
        }
    }
}

/// The values of `map` under the given keys.
pub open spec fn values_at(map: Map<String, Dependency>, keys: Seq<String>) -> Seq<Dependency> {
    Seq::new(keys.len(), |i: int| map[keys[i]])
}

/// Whether `keys` are the keys of `map`, each once.
pub open spec fn lists_keys(keys: Seq<String>, map: Map<String, Dependency>) -> bool {
    &&& keys.no_duplicates()
    &&& keys.to_set() == map.dom()
}

/// Whether `values` are the values of `map`, once for each key, in some order of the keys.
pub open spec fn lists_values(values: Seq<Dependency>, map: Map<String, Dependency>) -> bool {
    exists|keys: Seq<String>| #[trigger] lists_keys(keys, map) && values == values_at(map, keys)
}

/// Whether `path` is that of the manifest of a dependency in `map`.
pub open spec fn is_manifest_in(path: Seq<char>, map: Map<String, Dependency>) -> bool {
    exists|key: String| #[trigger] map.contains_key(key) && map[key].manifest() == Some(path)
}

/// `HashMap::into_values` hands out the values of the map, once for each key. The order is that of
/// the map, and is not stated.
#[verifier::external_body]
fn into_values(map: HashMap<String, Dependency>) -> (values: Vec<Dependency>)
    ensures
        lists_values(values@, map@),
{
    map.into_values().collect()
}

/// `itertools::concat` extends the first of the collections with each of the others in turn.
#[verifier::external_body]
fn concat(parts: Vec<Vec<Dependency>>) -> (all: Vec<Dependency>)
    ensures
        all@ == Seq::new(parts@.len(), |i: int| parts@[i]@).flatten(),
{
    itertools::concat(parts)
}

/// The path of the file `Cargo.toml` in a directory.
pub fn manifest_in_directory(directory: &str) -> (path: String)
    ensures
        path@ == in_directory(directory@),
{
    let len = directory.unicode_len();
    let mut path = directory.to_owned();
    if len > 0 && directory.get_char(len - 1) != '/' {
        path.append("/");
    }
    path.append("Cargo.toml");
    path
}

/// The paths of the manifests of those dependencies that specify a path, in order.
pub fn with_toml_path(dependencies: &Vec<Dependency>) -> (paths: Vec<String>)
    ensures
        views(paths@) == manifests(dependencies@),
{
    let mut paths: Vec<String> = Vec::new();
    for i in 0..dependencies.len()
        invariant
            views(paths@) == manifests(dependencies@.take(i as int)),
    {
        let ghost before = views(paths@);
        assert(dependencies@.take(i + 1).drop_last() =~= dependencies@.take(i as int));
        assert(dependencies@.take(i + 1).last() == dependencies@[i as int]);
        if let Dependency::Json(spec) = &dependencies[i] {
            if let Some(directory) = &spec.path {
                let path = manifest_in_directory(directory.as_str());
                paths.push(path);
                assert(views(paths@) =~= before.push(path@));
            }
        }
    }
    assert(dependencies@.take(dependencies@.len() as int) =~= dependencies@);
    paths
}

impl CargoManifest {
    /// Whether `path` is that of the manifest of a dependency of any kind.
    pub open spec fn refers_to(self, path: Seq<char>) -> bool {
        ||| is_manifest_in(path, self.dependencies@)
        ||| is_manifest_in(path, self.dev_dependencies@)
        ||| is_manifest_in(path, self.build_dependencies@)
    }

    /// The paths of the manifests of all dependencies that specify a path: first those of the
    /// dependencies proper, then those of the development and of the build dependencies, each
    /// in an order that the map chooses.
    pub fn all_dependencies_with_toml_path(self) -> (paths: Vec<String>)
        ensures
            exists|normal: Seq<Dependency>, dev: Seq<Dependency>, build: Seq<Dependency>| #[trigger]
                lists_values(normal, self.dependencies@) && #[trigger] lists_values(
                    dev,
                    self.dev_dependencies@,
                ) && #[trigger] lists_values(build, self.build_dependencies@) && views(paths@)
                    == manifests(normal + dev + build),
            forall|path: Seq<char>| #[trigger]
                views(paths@).contains(path) <==> self.refers_to(path),
    {
        let normal = into_values(self.dependencies);
        let dev = into_values(self.dev_dependencies);
        let build = into_values(self.build_dependencies);
        let ghost (of_normal, of_dev, of_build) = (normal@, dev@, build@);
        let all = concat(vec![normal, dev, build]);
        proof {
            let parts = seq![of_normal, of_dev, of_build];
            reveal_with_fuel(Seq::<_>::flatten, 4);
            assert(parts.drop_first() =~= seq![of_dev, of_build]);
            assert(parts.drop_first().drop_first() =~= seq![of_build]);
            assert(parts.flatten() =~= of_normal + of_dev + of_build);
        }
        assert(all@ =~= of_normal + of_dev + of_build);
        let paths = with_toml_path(&all);
        assert forall|path: Seq<char>| #[trigger]
            views(paths@).contains(path) <==> self.refers_to(path) by {
            manifests_distribute(of_normal + of_dev, of_build);
            manifests_distribute(of_normal, of_dev);
            let listed = (manifests(of_normal), manifests(of_dev), manifests(of_build));
            lemma_listed_manifests(of_normal, self.dependencies@, path);
            lemma_listed_manifests(of_dev, self.dev_dependencies@, path);
            lemma_listed_manifests(of_build, self.build_dependencies@, path);
            lemma_contains_either(listed.0 + listed.1, listed.2, path);
            lemma_contains_either(listed.0, listed.1, path);
        }
        paths
    }
}

/// The manifests of dependencies followed by others are their manifests, followed by those of the
/// others.
pub proof fn manifests_distribute(first: Seq<Dependency>, second: Seq<Dependency>)
    ensures
        manifests(first + second) == manifests(first) + manifests(second),
    decreases second.len(),
{
    if second.len() == 0 {
        assert(first + second =~= first);
        assert(manifests(first) + manifests(second) =~= manifests(first));
    } else {
        assert((first + second).drop_last() =~= first + second.drop_last());
        assert((first + second).last() == second.last());
        manifests_distribute(first, second.drop_last());
        if let Some(path) = second.last().manifest() {
            assert((manifests(first) + manifests(second.drop_last())).push(path) =~= manifests(
                first,
            ) + manifests(second.drop_last()).push(path));
        }
    }
}

/// Two sequences one after the other hold what either of them holds.
proof fn lemma_contains_either(first: Seq<Seq<char>>, second: Seq<Seq<char>>, path: Seq<char>)
    ensures
        (first + second).contains(path) <==> first.contains(path) || second.contains(path),
{
    if first.contains(path) {
        let i = first.index_of(path);
        assert((first + second)[i] == path);
    }
    if second.contains(path) {
        let i = second.index_of(path);
        assert((first + second)[first.len() + i] == path);
    }
}

/// A path is among the manifests exactly if it is that of one of the dependencies.
proof fn lemma_manifests_contain(dependencies: Seq<Dependency>, path: Seq<char>)
    ensures
        manifests(dependencies).contains(path) <==> exists|i: int|
            0 <= i < dependencies.len() && #[trigger] dependencies[i].manifest() == Some(path),
    decreases dependencies.len(),
{
    if dependencies.len() > 0 {
        let before = dependencies.drop_last();
        lemma_manifests_contain(before, path);
        let found = manifests(before);
        let last = dependencies.len() - 1;
        if let Some(other) = dependencies.last().manifest() {
            lemma_contains_either(found, seq![other], path);
            assert(found.push(other) =~= found + seq![other]);
            assert(seq![other].contains(path) <==> other == path) by {
                assert(seq![other][0] == other);
            }
        }
        if exists|i: int|
            0 <= i < dependencies.len() && #[trigger] dependencies[i].manifest() == Some(path) {
            let i = choose|i: int|
                0 <= i < dependencies.len() && #[trigger] dependencies[i].manifest() == Some(path);
            if i < last {
                assert(before[i].manifest() == Some(path));
            }
        }
        if exists|i: int| 0 <= i < before.len() && #[trigger] before[i].manifest() == Some(path) {
            let i = choose|i: int|
                0 <= i < before.len() && #[trigger] before[i].manifest() == Some(path);
            assert(dependencies[i].manifest() == Some(path));
        }
        assert(dependencies[last] == dependencies.last());
    }
}

/// Whatever the order of the keys, the same manifests are listed.
proof fn lemma_listed_manifests(
    values: Seq<Dependency>,
    map: Map<String, Dependency>,
    path: Seq<char>,
)
    requires
        lists_values(values, map),
    ensures
        manifests(values).contains(path) <==> is_manifest_in(path, map),
{
    let keys = choose|keys: Seq<String>| #[trigger]
        lists_keys(keys, map) && values == values_at(map, keys);
    lemma_manifests_contain(values, path);
    if manifests(values).contains(path) {
        let i = choose|i: int|
            0 <= i < values.len() && #[trigger] values[i].manifest() == Some(path);
        assert(keys.to_set().contains(keys[i]));
        assert(map.contains_key(keys[i]));
    }
    if is_manifest_in(path, map) {
        let key = choose|key: String| #[trigger]
            map.contains_key(key) && map[key].manifest() == Some(path);
        assert(keys.to_set().contains(key));
        let i = keys.index_of(key);
        assert(values[i].manifest() == Some(path));
    }
}

/// The values of a map in any order of its keys have the same manifests, as often as each occurs.
pub proof fn order_of_keys_does_not_matter(
    map: Map<String, Dependency>,
    first: Seq<Dependency>,
    second: Seq<Dependency>,
)
    requires
        lists_values(first, map),
        lists_values(second, map),
    ensures
        manifests(first).to_multiset() == manifests(second).to_multiset(),
{
    let keys = choose|keys: Seq<String>| #[trigger]
        lists_keys(keys, map) && first == values_at(map, keys);
    let other = choose|keys: Seq<String>| #[trigger]
        lists_keys(keys, map) && second == values_at(map, keys);
    lemma_same_keys(map, keys, other);
}

/// The same keys in another order.
proof fn lemma_same_keys(map: Map<String, Dependency>, keys: Seq<String>, other: Seq<String>)
    requires
        keys.no_duplicates(),
        other.no_duplicates(),
        keys.to_set() == other.to_set(),
    ensures
        manifests(values_at(map, keys)).to_multiset() == manifests(
            values_at(map, other),
        ).to_multiset(),
    decreases keys.len(),
{
    if keys.len() == 0 {
        if other.len() > 0 {
            assert(other.to_set().contains(other[0]));
            assert(keys.contains(other[0]));
        }
        assert(keys =~= other);
    } else {
        let key = keys.last();
        assert(keys[keys.len() - 1] == key);
        assert(keys.to_set().contains(key));
        assert(other.contains(key));
        let i = other.index_of(key);
        let (some, left, right) = (keys.drop_last(), other.take(i), other.skip(i + 1));
        let rest = left + right;
        assert forall|k: String| some.contains(k) == #[trigger] rest.contains(k) by {
            assert(keys.to_set().contains(k) == keys.contains(k));
            assert(other.to_set().contains(k) == other.contains(k));
            if some.contains(k) {
                let j = some.index_of(k);
                assert(keys[j] == k);
                assert(other.contains(k));
                let n = other.index_of(k);
                assert(n != i);
                if n < i {
                    assert(rest[n] == k);
                } else {
                    assert(rest[n - 1] == k);
                }
            }
            if rest.contains(k) {
                let j = rest.index_of(k);
                let n = if j < i {
                    j
                } else {
                    j + 1
                };
                assert(other[n] == k);
                assert(keys.contains(k));
                let m = keys.index_of(k);
                assert(m != keys.len() - 1);
                assert(some[m] == k);
            }
        }
        assert(some.to_set() =~= rest.to_set());
        lemma_same_keys(map, some, rest);
        let one = seq![map[key]];
        let (a, b) = (values_at(map, left), values_at(map, right));
        assert(values_at(map, keys) =~= values_at(map, some) + one);
        assert(values_at(map, other) =~= a + one + b);
        assert(values_at(map, rest) =~= a + b);
        manifests_distribute(values_at(map, some), one);
        manifests_distribute(a + one, b);
        manifests_distribute(a, one);
        manifests_distribute(a, b);
        vstd::seq_lib::lemma_multiset_commutative(manifests(values_at(map, some)), manifests(one));
        vstd::seq_lib::lemma_multiset_commutative(manifests(a) + manifests(one), manifests(b));
        vstd::seq_lib::lemma_multiset_commutative(manifests(a), manifests(one));
        vstd::seq_lib::lemma_multiset_commutative(manifests(a), manifests(b));
        assert(manifests(values_at(map, keys)).to_multiset() =~= manifests(
            values_at(map, other),
        ).to_multiset());
    }
}

/// The path of a manifest begins with that of its directory and ends in the name of the file. In
/// between stands a slash, unless the directory has none before it or ends in one.
pub proof fn manifests_stand_in_their_directory(directory: Seq<char>)
    ensures
        directory.len() > 0 && directory.last() != '/' ==> in_directory(directory) == directory
            + seq!['/'] + "Cargo.toml"@,
        directory.len() == 0 || directory.last() == '/' ==> in_directory(directory) == directory
            + "Cargo.toml"@,
{
    reveal_strlit("/");
    assert("/"@ =~= seq!['/']);
}

/// A dependency has a manifest exactly if its specification gives a path, and then in that
/// directory.
pub proof fn one_dependency_has_one_manifest(version: String, path: String)
    ensures
        manifests(Seq::empty()) == Seq::<Seq<char>>::empty(),
        manifests(seq![Dependency::Text(version)]) == Seq::<Seq<char>>::empty(),
        manifests(seq![Dependency::Json(DependencySpec { path: None })]) == Seq::<
            Seq<char>,
        >::empty(),
        manifests(seq![Dependency::Json(DependencySpec { path: Some(path) })]) == seq![
            in_directory(path@),
        ],
{
    reveal_with_fuel(manifests, 2);
    let text = seq![Dependency::Text(version)];
    let none = seq![Dependency::Json(DependencySpec { path: None })];
    let some = seq![Dependency::Json(DependencySpec { path: Some(path) })];
    assert(text.drop_last() =~= Seq::empty());
    assert(none.drop_last() =~= Seq::empty());
    assert(some.drop_last() =~= Seq::empty());
    assert(manifests(some) =~= seq![in_directory(path@)]);
}

} // verus!
