//! Facets: the names of a catalog, and the renditions they stand for.

use vstd::prelude::*;

use indexmap::IndexMap;

use crate::index::{
    has_key, key_at, keys_differ, name_entries, name_index_entry, name_index_get,
    name_index_insert, new_name_index,
};

verus! {

/// What a name stands for: the renditions of an element, a part, if it names one,
/// and an identifier.
#[derive(Debug, Clone, Copy)]
pub struct Facet {
    pub element: u16,
    pub part: Option<u16>,
    pub identifier: u16,
}

/// Facets by name, in the order in which the names first came.
pub struct FacetTable {
    index: IndexMap<String, usize>,
    facets: Vec<Facet>,
}

/// Whether a name is there.
pub open spec fn has_name(entries: Seq<(Seq<char>, Facet)>, name: Seq<char>) -> bool {
    exists|i: int| 0 <= i < entries.len() && #[trigger] entries[i].0 == name
}

/// Where a name stands.
pub open spec fn name_at(entries: Seq<(Seq<char>, Facet)>, name: Seq<char>) -> int {
    choose|i: int| 0 <= i < entries.len() && #[trigger] entries[i].0 == name
}

/// No name occurs twice.
pub open spec fn names_differ(entries: Seq<(Seq<char>, Facet)>) -> bool {
    forall|i: int, j: int|
        0 <= i < j < entries.len() ==> (#[trigger] entries[i]).0 != (#[trigger] entries[j]).0
}

/// The table after `name` was set: a known name keeps its place, a new one comes
/// last.
pub open spec fn with_facet(
    entries: Seq<(Seq<char>, Facet)>,
    name: Seq<char>,
    facet: Facet,
) -> Seq<(Seq<char>, Facet)> {
    if has_name(entries, name) {
        entries.update(name_at(entries, name), (name, facet))
    } else {
        entries.push((name, facet))
    }
}

/// The table after `name` was added, unless it was there.
pub open spec fn with_new_facet(
    entries: Seq<(Seq<char>, Facet)>,
    name: Seq<char>,
    facet: Facet,
) -> Seq<(Seq<char>, Facet)> {
    if has_name(entries, name) {
        entries
    } else {
        entries.push((name, facet))
    }
}

impl FacetTable {
    /// Names and facets, in order.
    pub closed spec fn view(&self) -> Seq<(Seq<char>, Facet)> {
        Seq::new(
            self.facets@.len(),
            |i: int| (name_entries(self.index)[i].0, self.facets@[i]),
        )
    }

    /// Each name leads to its own facet.
    pub closed spec fn wf(&self) -> bool {
        &&& keys_differ(name_entries(self.index))
        &&& name_entries(self.index).len() == self.facets@.len()
        &&& forall|i: int|
            0 <= i < self.facets@.len() ==> (#[trigger] name_entries(self.index)[i]).1 == i
    }

    /// No name occurs twice in a table.
    pub proof fn names_are_distinct(&self)
        requires
            self.wf(),
        ensures
            names_differ(self.view()),
    {
        let entries = name_entries(self.index);
        assert forall|i: int, j: int| 0 <= i < j < self.view().len() implies (
        #[trigger] self.view()[i]).0 != (#[trigger] self.view()[j]).0 by {
            assert(entries[i].0 != entries[j].0);
        }
    }

    /// A table without names.
    pub fn new() -> (table: Self)
        ensures
            table.wf(),
            table.view() == Seq::<(Seq<char>, Facet)>::empty(),
    {
        let table = FacetTable { index: new_name_index(), facets: Vec::new() };
        assert(table.view() =~= Seq::<(Seq<char>, Facet)>::empty());
        table
    }

    /// How many names there are.
    pub fn len(&self) -> (n: usize)
        requires
            self.wf(),
        ensures
            n == self.view().len(),
    {
        self.facets.len()
    }

    /// The name at a position.
    pub fn name(&self, i: usize) -> (name: &str)
        requires
            self.wf(),
            i < self.view().len(),
        ensures
            name@ == self.view()[i as int].0,
    {
        let (name, _) = name_index_entry(&self.index, i);
        name
    }

    /// The facet at a position.
    pub fn facet(&self, i: usize) -> (facet: Facet)
        requires
            self.wf(),
            i < self.view().len(),
        ensures
            facet == self.view()[i as int].1,
    {
        self.facets[i]
    }

    /// Where a name stands, if it is there.
    pub fn find(&self, name: &str) -> (at: Option<usize>)
        requires
            self.wf(),
        ensures
            match at {
                Some(i) => i < self.view().len() && self.view()[i as int].0 == name@,
                None => !has_name(self.view(), name@),
            },
    {
        let at = name_index_get(&self.index, name);
        proof {
            let entries = name_entries(self.index);
            if has_key(entries, name@) {
                let k = key_at(entries, name@);
                assert(entries[k].1 == k);
                assert(self.view()[k].0 == name@);
            } else {
                assert forall|i: int| 0 <= i < self.view().len() implies #[trigger] self.view()[i].0
                    != name@ by {
                    assert(entries[i].0 != name@);
                }
            }
        }
        at
    }

    /// Sets what a name stands for.
    pub fn insert(&mut self, name: &str, facet: Facet)
        requires
            old(self).wf(),
        ensures
            final(self).wf(),
            final(self).view() == with_facet(old(self).view(), name@, facet),
    {
        proof {
            self.names_are_distinct();
        }
        match self.find(name) {
            Some(at) => {
                proof {
                    let k = name_at(self.view(), name@);
                    assert(self.view()[at as int].0 == name@ && self.view()[k].0 == name@);
                    assert(k == at);
                }
                self.facets.set(at, facet);
                assert(self.view() =~= with_facet(old(self).view(), name@, facet));
            },
            None => {
                self.push(name, facet);
            },
        }
    }

    /// Sets what a name stands for, unless it stands for something already.
    pub fn insert_new(&mut self, name: &str, facet: Facet)
        requires
            old(self).wf(),
        ensures
            final(self).wf(),
            final(self).view() == with_new_facet(old(self).view(), name@, facet),
    {
        match self.find(name) {
            Some(_) => {},
            None => {
                self.push(name, facet);
            },
        }
    }

    fn push(&mut self, name: &str, facet: Facet)
        requires
            old(self).wf(),
            !has_name(old(self).view(), name@),
        ensures
            final(self).wf(),
            final(self).view() == old(self).view().push((name@, facet)),
    {
        proof {
            let entries = name_entries(self.index);
            assert forall|i: int| 0 <= i < entries.len() implies #[trigger] entries[i].0
                != name@ by {
                assert(self.view()[i].0 == entries[i].0);
            }
        }
        name_index_insert(&mut self.index, name, self.facets.len());
        self.facets.push(facet);
        assert(self.view() =~= old(self).view().push((name@, facet)));
    }
}

} // verus!
