//! Where in the tree of steps a run is.

use vstd::prelude::*;

use crate::options::Opt;
use crate::text::{join, views};
#[allow(unused_imports)]
use crate::text::joined;

verus! {

/// Encapsulates all the local state relative to a step, and is propagated to child steps.
pub struct Context {
    pub opt: Opt,
    pub prefix: Vec<String>,
}

/// The flags of an [`Opt`].
pub struct Flags {
    pub dry_run: bool,
    pub commands: bool,
    pub logs: bool,
    pub keep_going: bool,
}

/// What a [`Context`] holds for the run: the flags, and the names of the enclosing steps from
/// the outermost to the innermost.
#[verifier::ext_equal]
pub struct Place {
    pub flags: Flags,
    pub prefix: Seq<Seq<char>>,
}

impl Flags {
    /// Whether the command lines are to be shown.
    pub open spec fn shows_commands(self) -> bool {
        self.commands || self.dry_run
    }
}

impl Opt {
    /// The flags of the options.
    pub open spec fn flags(self) -> Flags {
        Flags {
            dry_run: self.dry_run,
            commands: self.commands,
            logs: self.logs,
            keep_going: self.keep_going,
        }
    }
}

impl Place {
    /// The place of the step called `name` inside this one.
    pub open spec fn child(self, name: Seq<char>) -> Place {
        Place { flags: self.flags, prefix: self.prefix.push(name) }
    }

    /// The names of the enclosing steps, as shown in the log lines.
    pub open spec fn text(self) -> Seq<char> {
        joined(self.prefix, " ❯ "@)
    }
}

impl View for Context {
    type V = Place;

    open spec fn view(&self) -> Place {
        Place { flags: self.opt.flags(), prefix: views(self.prefix@) }
    }
}

impl Context {
    /// The context outside of all steps.
    pub fn root(opt: &Opt) -> (context: Self)
        ensures
            context.opt.same_as(*opt),
            context@ == (Place { flags: opt.flags(), prefix: Seq::empty() }),
    {
        let context = Context { opt: opt.clone(), prefix: Vec::new() };
        assert(context@.prefix == Seq::<Seq<char>>::empty());
        context
    }

    /// The context of the step called `name` inside this one.
    pub fn child(&self, name: &str) -> (context: Self)
        ensures
            context.opt.same_as(self.opt),
            context@ == self@.child(name@),
    {
        let mut prefix = self.prefix.clone();
        prefix.push(name.to_owned());
        let context = Context { opt: self.opt.clone(), prefix };
        assert(context@.prefix =~= self@.prefix.push(name@));
        context
    }

    /// The number of enclosing steps.
    pub fn depth(&self) -> (depth: usize)
        ensures
            depth == self@.prefix.len(),
    {
        self.prefix.len()
    }

    /// The names of the enclosing steps, the outermost first.
    pub fn to_string(&self) -> (text: String)
        ensures
            text@ == self@.text(),
    {
        join(&self.prefix, " ❯ ")
    }
}

impl Clone for Context {
    fn clone(&self) -> (copy: Self)
        ensures
            copy.opt.same_as(self.opt),
            copy@ == self@,
    {
        let copy = Context { opt: self.opt.clone(), prefix: self.prefix.clone() };
        assert(copy@.prefix =~= self@.prefix);
        copy
    }
}

/// The name of a step comes last in its place, after those of the steps around it, and the flags
/// are those of the steps around it.
pub proof fn children_come_last(place: Place, name: Seq<char>)
    ensures
        place.child(name).flags == place.flags,
        place.child(name).prefix.drop_last() == place.prefix,
        place.child(name).prefix.last() == name,
        place.prefix.len() == 0 ==> place.child(name).text() == name,
        place.prefix.len() > 0 ==> place.child(name).text() == place.text() + " ❯ "@ + name,
{
    assert(place.child(name).prefix.drop_last() =~= place.prefix);
}

/// The flags are those that were given, and command lines are shown if they are to be shown, or are
/// not to be run.
pub proof fn flags_are_as_given(opt: Opt)
    ensures
        opt.flags().dry_run == opt.dry_run,
        opt.flags().commands == opt.commands,
        opt.flags().logs == opt.logs,
        opt.flags().keep_going == opt.keep_going,
        opt.flags().shows_commands() == (opt.commands || opt.dry_run),
{
}

} // verus!
