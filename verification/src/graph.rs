//! The dependency graph: each package name with the ordered list of its
//! direct dependencies.

use crate::names::names_of;
use crate::table::Table;
use vstd::prelude::*;

verus! {

/// A mapping from package name to the ordered list of the names of its direct
/// dependencies.
///
/// Its view is a finite map from names to sequences of names. A name has at
/// most one entry; inserting under a name that is present replaces its list.
pub struct GraphStore {
    table: Table<String, Vec<String>>,
}

impl View for GraphStore {
    type V = Map<Seq<char>, Seq<Seq<char>>>;

    closed spec fn view(&self) -> Map<Seq<char>, Seq<Seq<char>>> {
        self.table@
    }
}

impl GraphStore {
    /// A graph has finitely many entries.
    pub proof fn lemma_finite(&self)
        ensures
            self@.dom().finite(),
    {
        self.table.lemma_finite();
    }

    /// The graph without entries.
    pub fn new() -> (g: GraphStore)
        ensures
            g@ == Map::<Seq<char>, Seq<Seq<char>>>::empty(),
    {
        GraphStore { table: Table::new() }
    }

    /// Whether `name` has an entry.
    pub fn contains_key(&self, name: &String) -> (found: bool)
        ensures
            found == self@.dom().contains(name@),
    {
        self.table.contains_key(name)
    }

    /// The recorded dependency list of `name`, if it has an entry.
    pub fn get(&self, name: &String) -> (found: Option<&Vec<String>>)
        ensures
            found is Some == self@.dom().contains(name@),
            found matches Some(deps) ==> names_of(deps@) == self@[name@],
    {
        let found = self.table.get(name);
        assert(found matches Some(deps) ==> names_of(deps@) =~= deps.deep_view());
        found
    }

    /// Records `deps` as the dependency list of `name`, in place of any list
    /// recorded for it before.
    pub fn insert(&mut self, name: String, deps: Vec<String>)
        ensures
            final(self)@ == old(self)@.insert(name@, names_of(deps@)),
    {
        assert(names_of(deps@) =~= deps.deep_view());
        self.table.insert(name, deps);
    }

    /// The number of entries.
    pub fn len(&self) -> (n: usize)
        ensures
            n == self@.dom().len(),
            self@.dom().finite(),
    {
        self.table.len()
    }
}

} // verus!
