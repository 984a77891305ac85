//! The names of what a stage found unchanged since the last run.

use vstd::hash_set::StringHashSet;
use vstd::prelude::*;

verus! {

/// A set of names: the ids of the lists, or the tags of the categories, that
/// need no work in this run. Each stage hands the set on to the next, which
/// may take names out of it.
pub struct CachedSet {
    names: StringHashSet,
}

impl View for CachedSet {
    type V = Set<Seq<char>>;

    /// The names, each as its characters.
    closed spec fn view(&self) -> Set<Seq<char>> {
        self.names@
    }
}

impl CachedSet {
    /// The set without names.
    pub fn new() -> (set: Self)
        ensures
            set@ == Set::<Seq<char>>::empty(),
    {
        CachedSet { names: StringHashSet::new() }
    }

    /// Whether the set holds the name.
    pub fn contains(&self, name: &str) -> (found: bool)
        ensures
            found == self@.contains(name@),
    {
        self.names.contains(name)
    }

    /// Puts a name into the set. Returns whether the name is new to it.
    pub fn insert(&mut self, name: String) -> (added: bool)
        ensures
            final(self)@ == old(self)@.insert(name@),
            added == !old(self)@.contains(name@),
    {
        self.names.insert(name)
    }

    /// Takes a name out of the set. Returns whether the set held it.
    pub fn remove(&mut self, name: &str) -> (removed: bool)
        ensures
            final(self)@ == old(self)@.remove(name@),
            removed == old(self)@.contains(name@),
    {
        self.names.remove(name)
    }
}

} // verus!
