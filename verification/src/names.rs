//! Package names and finite sets of them.
//!
//! A package name is an opaque string. In contracts a name is its sequence of
//! characters, and a list of names is the sequence of those sequences.

use crate::table::Table;
use vstd::prelude::*;

verus! {

/// The characters of each string of `v`, in order.
pub open spec fn names_of(v: Seq<String>) -> Seq<Seq<char>> {
    Seq::new(v.len(), |i: int| v[i]@)
}

/// A copy of `v` that holds the same names in the same order.
pub fn clone_names(v: &Vec<String>) -> (out: Vec<String>)
    ensures
        names_of(out@) == names_of(v@),
{
    let mut out: Vec<String> = Vec::new();
    let mut i: usize = 0;
    while i < v.len()
        invariant
            i <= v.len(),
            out.len() == i,
            forall|j: int| 0 <= j < i ==> out[j]@ == v[j]@,
        decreases v.len() - i,
    {
        out.push(v[i].clone());
        i += 1;
    }
    out
}

/// A finite set of package names.
///
/// Its view is the set of the names it holds.
pub struct NameSet {
    table: Table<String, ()>,
}

impl View for NameSet {
    type V = Set<Seq<char>>;

    closed spec fn view(&self) -> Set<Seq<char>> {
        self.table@.dom()
    }
}

impl NameSet {
    /// The set of names is always finite.
    pub proof fn lemma_finite(&self)
        ensures
            self@.finite(),
    {
        self.table.lemma_finite();
    }

    /// The empty set.
    pub fn new() -> (s: NameSet)
        ensures
            s@ == Set::<Seq<char>>::empty(),
    {
        let s = NameSet { table: Table::new() };
        s
    }

    /// Whether `name` is in the set.
    pub fn contains(&self, name: &String) -> (found: bool)
        ensures
            found == self@.contains(name@),
    {
        self.table.contains_key(name)
    }

    /// Adds `name`, and says whether it was new.
    pub fn insert(&mut self, name: String) -> (fresh: bool)
        ensures
            final(self)@ == old(self)@.insert(name@),
            fresh == !old(self)@.contains(name@),
    {
        let fresh = !self.table.contains_key(&name);
        self.table.insert(name, ());
        fresh
    }

    /// The number of names in the set.
    pub fn len(&self) -> (n: usize)
        ensures
            n == self@.len(),
            self@.finite(),
    {
        self.table.len()
    }
}

} // verus!
