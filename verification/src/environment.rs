//! Environment variables, and those of them that a command gets to see.

use vstd::prelude::*;
use vstd::string::*;

use crate::text::same_text;

verus! {

/// Environment variables. No name occurs twice.
pub struct Environment {
    variables: Vec<(String, String)>,
}

/// Whether no two of the variables have the same name.
pub open spec fn distinct_names(variables: Seq<(String, String)>) -> bool {
    forall|i: int, j: int|
        0 <= i < j < variables.len() ==> (#[trigger] variables[i]).0@ != (
        #[trigger] variables[j]).0@
}

/// Whether the variable at `i` has the given name.
pub open spec fn is_named(variables: Seq<(String, String)>, name: Seq<char>, i: int) -> bool {
    0 <= i < variables.len() && variables[i].0@ == name
}

/// The values of the variables by name.
pub open spec fn by_name(variables: Seq<(String, String)>) -> Map<Seq<char>, Seq<char>> {
    Map::new(
        |name: Seq<char>| exists|i: int| #[trigger] is_named(variables, name, i),
        |name: Seq<char>|
            {
                let i = choose|i: int| #[trigger] is_named(variables, name, i);
                variables[i].1@
            },
    )
}

impl View for Environment {
    type V = Map<Seq<char>, Seq<char>>;

    closed spec fn view(&self) -> Map<Seq<char>, Seq<char>> {
        by_name(self.variables@)
    }
}

impl Environment {
    #[verifier::type_invariant]
    spec fn names_differ(self) -> bool {
        distinct_names(self.variables@)
    }

    /// No variables at all.
    pub fn new() -> (environment: Self)
        ensures
            environment@ == Map::<Seq<char>, Seq<char>>::empty(),
    {
        let environment = Environment { variables: Vec::new() };
        assert(environment@ =~= Map::empty());
        environment
    }

    /// Where the variable stands, if it is set.
    fn position(&self, name: &str) -> (position: Option<usize>)
        ensures
            match position {
                Some(i) => is_named(self.variables@, name@, i as int),
                None => forall|i: int| !#[trigger] is_named(self.variables@, name@, i),
            },
    {
        for i in 0..self.variables.len()
            invariant
                forall|j: int| 0 <= j < i ==> !#[trigger] is_named(self.variables@, name@, j),
        {
            if same_text(self.variables[i].0.as_str(), name) {
                return Some(i);
            }
        }
        None
    }

    /// The value of a variable, if it is set.
    pub fn get(&self, name: &str) -> (value: Option<&str>)
        ensures
            match value {
                Some(value) => self@.contains_pair(name@, value@),
                None => !self@.contains_key(name@),
            },
    {
        proof {
            use_type_invariant(self);
        }
        match self.position(name) {
            Some(i) => {
                assert(self@.contains_pair(name@, self.variables@[i as int].1@)) by {
                    lemma_named(self.variables@, i as int);
                }
                Some(self.variables[i].1.as_str())
            },
            None => None,
        }
    }

    /// Sets a variable, in place of the value that it may have had.
    pub fn set(&mut self, name: &str, value: &str)
        ensures
            final(self)@ == old(self)@.insert(name@, value@),
    {
        proof {
            use_type_invariant(&*self);
        }
        let position = self.position(name);
        let ghost before = self.variables@;
        let mut variables: Vec<(String, String)> = Vec::new();
        std::mem::swap(&mut variables, &mut self.variables);
        let variable = (name.to_owned(), value.to_owned());
        match position {
            Some(i) => {
                variables.set(i, variable);
                assert forall|j: int, k: int| 0 <= j < k < variables@.len() implies (
                #[trigger] variables@[j]).0@ != (#[trigger] variables@[k]).0@ by {
                    assert(before[j].0@ != before[k].0@);
                }
                proof {
                    lemma_replaced(before, variables@, i as int);
                }
            },
            None => {
                variables.push(variable);
                assert forall|j: int, k: int| 0 <= j < k < variables@.len() implies (
                #[trigger] variables@[j]).0@ != (#[trigger] variables@[k]).0@ by {
                    assert(!is_named(before, name@, j));
                }
                proof {
                    assert(variables@.drop_last() =~= before);
                    lemma_added(before, variables@);
                }
            },
        }
        self.variables = variables;
    }

    /// Sets all the variables of `other`, in place of the values that they may have had.
    pub fn set_all(&mut self, other: &Environment)
        ensures
            final(self)@ == old(self)@.union_prefer_right(other@),
    {
        proof {
            use_type_invariant(other);
        }
        let ghost before = self@;
        assert(before.union_prefer_right(by_name(other.variables@.take(0))) =~= before);
        for i in 0..other.variables.len()
            invariant
                distinct_names(other.variables@),
                self@ == before.union_prefer_right(by_name(other.variables@.take(i as int))),
        {
            self.set(other.variables[i].0.as_str(), other.variables[i].1.as_str());
            proof {
                let some = other.variables@.take(i as int);
                let more = other.variables@.take(i + 1);
                assert(more =~= some.push(other.variables@[i as int]));
                assert forall|j: int| !#[trigger] is_named(some, more.last().0@, j) by {
                    if is_named(some, more.last().0@, j) {
                        assert(other.variables@[j].0@ != other.variables@[i as int].0@);
                    }
                }
                assert(more.drop_last() =~= some);
                lemma_added(some, more);
                assert(self@ =~= before.union_prefer_right(by_name(more)));
            }
        }
        assert(other.variables@.take(other.variables@.len() as int) =~= other.variables@);
    }

    /// The variables with their values, each name once.
    pub fn variables(&self) -> (variables: &Vec<(String, String)>)
        ensures
            distinct_names(variables@),
            by_name(variables@) == self@,
    {
        proof {
            use_type_invariant(self);
        }
        &self.variables
    }
}

impl Clone for Environment {
    fn clone(&self) -> (copy: Self)
        ensures
            copy@ == self@,
    {
        let mut copy = Environment::new();
        copy.set_all(self);
        assert(copy@ =~= self@);
        copy
    }
}

/// A variable has its value.
proof fn lemma_named(variables: Seq<(String, String)>, i: int)
    requires
        distinct_names(variables),
        0 <= i < variables.len(),
    ensures
        by_name(variables).contains_pair(variables[i].0@, variables[i].1@),
{
    let name = variables[i].0@;
    assert(is_named(variables, name, i));
    let j = choose|j: int| #[trigger] is_named(variables, name, j);
    if j < i {
        assert(variables[j].0@ != variables[i].0@);
    }
    if i < j {
        assert(variables[i].0@ != variables[j].0@);
    }
}

/// One more variable, of a new name.
proof fn lemma_added(before: Seq<(String, String)>, after: Seq<(String, String)>)
    requires
        after.len() > 0,
        before == after.drop_last(),
        distinct_names(after),
    ensures
        by_name(after) == by_name(before).insert(after.last().0@, after.last().1@),
{
    let expected = by_name(before).insert(after.last().0@, after.last().1@);
    assert forall|name: Seq<char>| #[trigger]
        by_name(after).contains_key(name) == expected.contains_key(name) && (by_name(
        after,
    ).contains_key(name) ==> by_name(after)[name] == expected[name]) by {
        lemma_named(after, after.len() - 1);
        if by_name(after).contains_key(name) && name != after.last().0@ {
            let i = choose|i: int| #[trigger] is_named(after, name, i);
            assert(is_named(before, name, i));
            lemma_named(after, i);
            lemma_named(before, i);
        }
        if by_name(before).contains_key(name) {
            let i = choose|i: int| #[trigger] is_named(before, name, i);
            assert(is_named(after, name, i));
        }
    }
    assert(by_name(after) =~= expected);
}

/// The variable at `i` has a new value.
proof fn lemma_replaced(before: Seq<(String, String)>, after: Seq<(String, String)>, i: int)
    requires
        0 <= i < before.len(),
        distinct_names(before),
        distinct_names(after),
        after == before.update(i, after[i]),
        after[i].0@ == before[i].0@,
    ensures
        by_name(after) == by_name(before).insert(after[i].0@, after[i].1@),
{
    let expected = by_name(before).insert(after[i].0@, after[i].1@);
    assert forall|name: Seq<char>| #[trigger]
        by_name(after).contains_key(name) == expected.contains_key(name) && (by_name(
        after,
    ).contains_key(name) ==> by_name(after)[name] == expected[name]) by {
        lemma_named(after, i);
        if by_name(after).contains_key(name) {
            let j = choose|j: int| #[trigger] is_named(after, name, j);
            assert(is_named(before, name, j));
            lemma_named(after, j);
            lemma_named(before, j);
        }
        if by_name(before).contains_key(name) {
            let j = choose|j: int| #[trigger] is_named(before, name, j);
            assert(is_named(after, name, j));
        }
    }
    assert(by_name(after) =~= expected);
}

/// By its name, a variable is found with its value, and with no other.
pub proof fn variables_are_found_by_name(
    variables: Seq<(String, String)>,
    name: Seq<char>,
    value: Seq<char>,
)
    requires
        distinct_names(variables),
    ensures
        by_name(variables).contains_pair(name, value) <==> exists|i: int|
            0 <= i < variables.len() && (#[trigger] variables[i]).0@ == name && variables[i].1@
                == value,
{
    if by_name(variables).contains_key(name) {
        let i = choose|i: int| #[trigger] is_named(variables, name, i);
        assert(variables[i].0@ == name);
    }
    if exists|i: int|
        0 <= i < variables.len() && (#[trigger] variables[i]).0@ == name && variables[i].1@
            == value {
        let i = choose|i: int|
            0 <= i < variables.len() && (#[trigger] variables[i]).0@ == name && variables[i].1@
                == value;
        lemma_named(variables, i);
    }
}

} // verus!
