//! The concurrent maps of the `dashmap` crate that the generic-type map
//! and the file bookkeeping keep their data in, hashed with the Fx hash of
//! `rustc-hash`, with what each method that the library calls does to
//! their contents.
//!
//! `DashMap` changes its contents through a shared reference; the
//! wrappers here take the map by `&mut` so that a contract can say how the
//! contents after the call relate to those before it.

use dashmap::{DashMap, DashSet};
use rustc_hash::FxBuildHasher;
use vstd::prelude::*;

use crate::types::{DataType, Ty};

verus! {

#[verifier::external_type_specification]
#[verifier::external_body]
#[verifier::reject_recursive_types(K)]
#[verifier::reject_recursive_types(V)]
#[verifier::reject_recursive_types(S)]
pub struct ExDashMap<K, V, S>(DashMap<K, V, S>);

#[verifier::external_type_specification]
#[verifier::external_body]
#[verifier::reject_recursive_types(K)]
#[verifier::reject_recursive_types(S)]
pub struct ExDashSet<K, S>(DashSet<K, S>);

#[verifier::external_type_specification]
#[verifier::external_body]
pub struct ExFxBuildHasher(FxBuildHasher);

/// The map from generic-type ids to the types they stand for.
pub type TypeTable = DashMap<usize, DataType, FxBuildHasher>;

/// A set of generic-type ids.
pub type IdSet = DashSet<usize, FxBuildHasher>;

/// A map from a file's id and version to a list of ids.
pub type IdLists = DashMap<(usize, i32), Vec<usize>, FxBuildHasher>;

/// What a [`TypeTable`] holds: each key with the view of its value.
pub uninterp spec fn type_table_contents(m: DashMap<usize, DataType, FxBuildHasher>) -> Map<
    usize,
    Ty,
>;

/// What an [`IdSet`] holds.
pub uninterp spec fn id_set_contents(s: DashSet<usize, FxBuildHasher>) -> Set<usize>;

/// What an [`IdLists`] holds: each key with the list it maps to.
pub uninterp spec fn id_lists_contents(m: DashMap<(usize, i32), Vec<usize>, FxBuildHasher>) -> Map<
    (usize, i32),
    Seq<usize>,
>;

/// The empty map from ids to types.
pub open spec fn no_types() -> Map<usize, Ty> {
    Map::empty()
}

/// The empty map from files to lists of ids.
pub open spec fn no_id_lists() -> Map<(usize, i32), Seq<usize>> {
    Map::empty()
}

/// `DashMap::default`: a map with nothing in it.
#[verifier::external_body]
pub(crate) fn type_table_new() -> (r: TypeTable)
    ensures
        type_table_contents(r) == no_types(),
{
    DashMap::default()
}

/// `DashMap::get`, with the value cloned: the value of `k`, if there is
/// one.
#[verifier::external_body]
pub(crate) fn type_table_get(m: &TypeTable, k: usize) -> (r: Option<DataType>)
    ensures
        r matches Some(t) ==> type_table_contents(*m).contains_key(k) && t@ == type_table_contents(
            *m,
        )[k],
        r.is_none() ==> !type_table_contents(*m).contains_key(k),
{
    m.get(&k).map(|entry| entry.value().clone())
}

/// `DashMap::insert`: `k` now maps to `v`, and nothing else changes.
#[verifier::external_body]
pub(crate) fn type_table_insert(m: &mut TypeTable, k: usize, v: DataType)
    ensures
        type_table_contents(*final(m)) == type_table_contents(*old(m)).insert(k, v@),
{
    m.insert(k, v);
}

/// `DashMap::remove`: `k` maps to nothing now, and nothing else changes.
#[verifier::external_body]
pub(crate) fn type_table_remove(m: &mut TypeTable, k: usize)
    ensures
        type_table_contents(*final(m)) == type_table_contents(*old(m)).remove(k),
{
    m.remove(&k);
}

/// `DashMap::iter`, with each entry copied out: every key of the map once,
/// with its value, in an order that the source leaves open.
#[verifier::external_body]
pub(crate) fn type_table_entries(m: &TypeTable) -> (r: Vec<(usize, DataType)>)
    ensures
        forall|i: int|
            0 <= i < r@.len() ==> type_table_contents(*m).contains_key(#[trigger] r@[i].0)
                && r@[i].1@ == type_table_contents(*m)[r@[i].0],
        forall|k: usize|
            type_table_contents(*m).contains_key(k) ==> exists|i: int|
                0 <= i < r@.len() && #[trigger] r@[i].0 == k,
        forall|i: int, j: int| 0 <= i < j < r@.len() ==> #[trigger] r@[i].0 != #[trigger] r@[j].0,
{
    m.iter().map(|entry| (*entry.key(), entry.value().clone())).collect()
}

/// `DashMap::clone`: a second map with the same contents.
#[verifier::external_body]
pub(crate) fn type_table_clone(m: &TypeTable) -> (r: TypeTable)
    ensures
        type_table_contents(r) == type_table_contents(*m),
{
    m.clone()
}

/// `DashSet::default`: a set with nothing in it.
#[verifier::external_body]
pub(crate) fn id_set_new() -> (r: IdSet)
    ensures
        id_set_contents(r) == Set::<usize>::empty(),
{
    DashSet::default()
}

/// `DashSet::insert`: `k` is in the set now.
#[verifier::external_body]
pub(crate) fn id_set_insert(s: &mut IdSet, k: usize)
    ensures
        id_set_contents(*final(s)) == id_set_contents(*old(s)).insert(k),
{
    s.insert(k);
}

/// `DashSet::contains`.
#[verifier::external_body]
pub(crate) fn id_set_contains(s: &IdSet, k: usize) -> (r: bool)
    ensures
        r == id_set_contents(*s).contains(k),
{
    s.contains(&k)
}

/// `DashSet::remove`: `k` is no longer in the set.
#[verifier::external_body]
pub(crate) fn id_set_remove(s: &mut IdSet, k: usize)
    ensures
        id_set_contents(*final(s)) == id_set_contents(*old(s)).remove(k),
{
    s.remove(&k);
}

/// `DashSet::clone`: a second set with the same contents.
#[verifier::external_body]
pub(crate) fn id_set_clone(s: &IdSet) -> (r: IdSet)
    ensures
        id_set_contents(r) == id_set_contents(*s),
{
    s.clone()
}

/// `DashMap::default`: a map with nothing in it.
#[verifier::external_body]
pub(crate) fn id_lists_new() -> (r: IdLists)
    ensures
        id_lists_contents(r) == no_id_lists(),
        id_lists_contents(r).dom().finite(),
{
    DashMap::default()
}

/// `DashMap::get`, with the list cloned.
#[verifier::external_body]
pub(crate) fn id_lists_get(m: &IdLists, k: (usize, i32)) -> (r: Option<Vec<usize>>)
    ensures
        r matches Some(v) ==> id_lists_contents(*m).contains_key(k) && v@ == id_lists_contents(
            *m,
        )[k],
        r.is_none() ==> !id_lists_contents(*m).contains_key(k),
{
    m.get(&k).map(|entry| entry.value().clone())
}

/// `DashMap::insert`: `k` now maps to `v`, and nothing else changes.
#[verifier::external_body]
pub(crate) fn id_lists_insert(m: &mut IdLists, k: (usize, i32), v: Vec<usize>)
    ensures
        id_lists_contents(*final(m)) == id_lists_contents(*old(m)).insert(k, v@),
        id_lists_contents(*final(m)).dom().finite(),
{
    m.insert(k, v);
}

/// `DashMap::remove`: `k` maps to nothing now, and nothing else changes.
#[verifier::external_body]
pub(crate) fn id_lists_remove(m: &mut IdLists, k: (usize, i32))
    ensures
        id_lists_contents(*final(m)) == id_lists_contents(*old(m)).remove(k),
        id_lists_contents(*final(m)).dom().finite(),
{
    m.remove(&k);
}

/// `DashMap::iter`, with each entry copied out: every key of the map once,
/// with its list, in an order that the source leaves open.
#[verifier::external_body]
pub(crate) fn id_lists_entries(m: &IdLists) -> (r: Vec<((usize, i32), Vec<usize>)>)
    ensures
        forall|i: int|
            0 <= i < r@.len() ==> id_lists_contents(*m).contains_key(#[trigger] r@[i].0)
                && r@[i].1@ == id_lists_contents(*m)[r@[i].0],
        forall|k: (usize, i32)|
            id_lists_contents(*m).contains_key(k) ==> exists|i: int|
                0 <= i < r@.len() && #[trigger] r@[i].0 == k,
        forall|i: int, j: int| 0 <= i < j < r@.len() ==> #[trigger] r@[i].0 != #[trigger] r@[j].0,
{
    m.iter().map(|entry| (*entry.key(), entry.value().clone())).collect()
}

/// `DashMap::len`: how many keys have a list.
#[verifier::external_body]
pub(crate) fn id_lists_len(m: &IdLists) -> (r: usize)
    ensures
        r == id_lists_contents(*m).dom().len(),
{
    m.len()
}

/// `DashMap::clone`: a second map with the same contents.
#[verifier::external_body]
pub(crate) fn id_lists_clone(m: &IdLists) -> (r: IdLists)
    ensures
        id_lists_contents(r) == id_lists_contents(*m),
        id_lists_contents(r).dom().finite(),
{
    m.clone()
}

} // verus!
