//! The interning of document paths: each path gets the id of the order in
//! which it was first seen, kept in an insertion-ordered `IndexSet` of the
//! `indexmap` crate.

use indexmap::IndexSet;
use std::hash::RandomState;
use vstd::prelude::*;

verus! {

#[verifier::external_type_specification]
#[verifier::external_body]
#[verifier::reject_recursive_types(T)]
#[verifier::reject_recursive_types(S)]
pub struct ExIndexSet<T, S>(IndexSet<T, S>);

/// What an interning set holds: its paths, in the order they were added.
pub uninterp spec fn interned_paths(s: IndexSet<String, RandomState>) -> Seq<Seq<char>>;

/// `IndexSet::default`: a set with nothing in it.
#[verifier::external_body]
fn index_set_new() -> (r: IndexSet<String, RandomState>)
    ensures
        interned_paths(r) == Seq::<Seq<char>>::empty(),
{
    IndexSet::default()
}

/// `IndexSet::get_index_of`: the position of `path`, if the set holds it.
#[verifier::external_body]
fn index_set_get_index_of(s: &IndexSet<String, RandomState>, path: &str) -> (r: Option<usize>)
    ensures
        r matches Some(i) ==> i < interned_paths(*s).len() && interned_paths(*s)[i as int]
            == path@,
        r is None ==> !interned_paths(*s).contains(path@),
{
    s.get_index_of(path)
}

/// `IndexSet::insert_full`: where the set already holds `path`, its
/// position and `false`, the set unchanged; otherwise `path` is added at
/// the end, and its position and `true` come back.
#[verifier::external_body]
fn index_set_insert_full(s: &mut IndexSet<String, RandomState>, path: String) -> (r: (
    usize,
    bool,
))
    ensures
        interned_paths(*old(s)).contains(path@) ==> {
            &&& !r.1
            &&& r.0 < interned_paths(*old(s)).len()
            &&& interned_paths(*old(s))[r.0 as int] == path@
            &&& interned_paths(*final(s)) == interned_paths(*old(s))
        },
        !interned_paths(*old(s)).contains(path@) ==> {
            &&& r.1
            &&& r.0 == interned_paths(*old(s)).len()
            &&& interned_paths(*final(s)) == interned_paths(*old(s)).push(path@)
        },
{
    s.insert_full(path)
}

/// `IndexSet::get_index`, with the path cloned: the path at position `i`,
/// if there is one.
#[verifier::external_body]
fn index_set_get_index(s: &IndexSet<String, RandomState>, i: usize) -> (r: Option<String>)
    ensures
        r matches Some(p) ==> i < interned_paths(*s).len() && p@ == interned_paths(*s)[i as int],
        r is None ==> i >= interned_paths(*s).len(),
{
    s.get_index(i).cloned()
}

/// The id of a document: the position of its path among the interned ones.
#[derive(Clone, Copy, Debug, PartialEq, Eq, Hash, Structural)]
pub struct FileId(pub usize);

/// The paths of the documents that the server knows, each once, with the
/// ids that they were given.
pub struct PathInterner {
    map: IndexSet<String, RandomState>,
}

impl Default for PathInterner {
    fn default() -> (r: Self)
        ensures
            r@ == Seq::<Seq<char>>::empty(),
    {
        PathInterner { map: index_set_new() }
    }
}

impl View for PathInterner {
    type V = Seq<Seq<char>>;

    /// The interned paths; the id of each is its position.
    closed spec fn view(&self) -> Seq<Seq<char>> {
        interned_paths(self.map)
    }
}

impl PathInterner {
    /// No path is interned twice.
    pub open spec fn wf(&self) -> bool {
        self@.no_duplicates()
    }

    /// Get the id corresponding to `path`.
    ///
    /// If `path` does not exists in `self`, returns [`None`].
    pub fn get(&self, path: &str) -> (r: Option<FileId>)
        requires
            self.wf(),
        ensures
            r matches Some(id) ==> id.0 < self@.len() && self@[id.0 as int] == path@,
            r is None <==> !self@.contains(path@),
    {
        match index_set_get_index_of(&self.map, path) {
            Some(i) => Some(FileId(i)),
            None => None,
        }
    }

    /// Insert `path` in `self`.
    ///
    /// - If `path` already exists in `self`, returns its associated id;
    /// - Else, returns a newly allocated id.
    pub fn insert(&mut self, path: String) -> (r: FileId)
        requires
            old(self).wf(),
        ensures
            final(self).wf(),
            old(self)@.contains(path@) ==> final(self)@ == old(self)@,
            !old(self)@.contains(path@) ==> final(self)@ == old(self)@.push(path@),
            r.0 < final(self)@.len(),
            final(self)@[r.0 as int] == path@,
    {
        let ghost p = path@;
        let (id, _added) = index_set_insert_full(&mut self.map, path);
        proof {
            if !old(self)@.contains(p) {
                assert forall|i: int, j: int|
                    0 <= i < self@.len() && 0 <= j < self@.len() && i != j implies self@[i]
                    != self@[j] by {
                    if i < old(self)@.len() && j < old(self)@.len() {
                    } else if i == old(self)@.len() {
                        assert(old(self)@[j] == self@[j]);
                    } else {
                        assert(old(self)@[i] == self@[i]);
                    }
                }
            }
        }
        FileId(id)
    }

    /// Returns the path corresponding to `id`.
    pub fn lookup(&self, id: &FileId) -> (r: String)
        requires
            id.0 < self@.len(),
        ensures
            r@ == self@[id.0 as int],
    {
        match index_set_get_index(&self.map, id.0) {
            Some(p) => p,
            None => String::new(),
        }
    }
}

} // verus!
