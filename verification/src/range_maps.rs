//! Maps from ranges of byte offsets to values, kept in the
//! `RangeInclusiveMap` of the `rangemap` crate. Each is seen as the map
//! from every offset that some stored range covers to the value stored
//! for that range; inserting a range overwrites the offsets it covers.

use rangemap::RangeInclusiveMap;
use vstd::prelude::*;

use crate::analysis::{SymbolInfo, SymbolInfoView, SymbolLocation};

verus! {

#[verifier::external_type_specification]
#[verifier::external_body]
#[verifier::reject_recursive_types(K)]
#[verifier::reject_recursive_types(V)]
#[verifier::reject_recursive_types(StepFnsT)]
pub struct ExRangeInclusiveMap<K, V, StepFnsT>(RangeInclusiveMap<K, V, StepFnsT>);

/// What a map from ranges to symbols holds, offset by offset.
pub uninterp spec fn symbol_ranges_contents(m: RangeInclusiveMap<usize, SymbolInfo, usize>) -> Map<
    usize,
    SymbolInfoView,
>;

/// What a map from ranges to locations holds, offset by offset.
pub uninterp spec fn scope_ranges_contents(
    m: RangeInclusiveMap<usize, SymbolLocation, usize>,
) -> Map<usize, SymbolLocation>;

/// The map that covers no offset with a symbol.
pub open spec fn no_symbols() -> Map<usize, SymbolInfoView> {
    Map::empty()
}

/// The map that covers no offset with a location.
pub open spec fn no_scopes() -> Map<usize, SymbolLocation> {
    Map::empty()
}

/// `m` with every offset from `start` up to and including `end` mapped to
/// `v`.
pub open spec fn insert_range<V>(m: Map<usize, V>, start: usize, end: usize, v: V) -> Map<
    usize,
    V,
> {
    Map::new(
        |k: usize| m.contains_key(k) || (start <= k && k <= end),
        |k: usize|
            if start <= k && k <= end {
                v
            } else {
                m[k]
            },
    )
}

/// `RangeInclusiveMap::new`: a map that covers no offset.
#[verifier::external_body]
fn symbol_ranges_new() -> (r: RangeInclusiveMap<usize, SymbolInfo, usize>)
    ensures
        symbol_ranges_contents(r) == no_symbols(),
{
    RangeInclusiveMap::new()
}

/// `RangeInclusiveMap::get`, with the symbol cloned: the symbol of the
/// range that covers `k`, if one does.
#[verifier::external_body]
fn symbol_ranges_get(m: &RangeInclusiveMap<usize, SymbolInfo, usize>, k: usize) -> (r: Option<
    SymbolInfo,
>)
    ensures
        r matches Some(s) ==> symbol_ranges_contents(*m).contains_key(k) && s@
            == symbol_ranges_contents(*m)[k],
        r is None ==> !symbol_ranges_contents(*m).contains_key(k),
{
    m.get(&k).map(|s| s.clone())
}

/// `RangeInclusiveMap::insert`: the offsets from `start` up to and
/// including `end` map to `v` now; the others keep their symbols. The
/// crate panics on a range that ends before it starts.
#[verifier::external_body]
fn symbol_ranges_insert(
    m: &mut RangeInclusiveMap<usize, SymbolInfo, usize>,
    start: usize,
    end: usize,
    v: SymbolInfo,
)
    requires
        start <= end,
    ensures
        symbol_ranges_contents(*final(m)) == insert_range(
            symbol_ranges_contents(*old(m)),
            start,
            end,
            v@,
        ),
{
    m.insert(start..=end, v);
}

/// `RangeInclusiveMap::new`: a map that covers no offset.
#[verifier::external_body]
fn scope_ranges_new() -> (r: RangeInclusiveMap<usize, SymbolLocation, usize>)
    ensures
        scope_ranges_contents(r) == no_scopes(),
{
    RangeInclusiveMap::new()
}

/// `RangeInclusiveMap::get`: the location of the range that covers `k`,
/// if one does.
#[verifier::external_body]
fn scope_ranges_get(m: &RangeInclusiveMap<usize, SymbolLocation, usize>, k: usize) -> (r: Option<
    SymbolLocation,
>)
    ensures
        r matches Some(l) ==> scope_ranges_contents(*m).contains_key(k) && l
            == scope_ranges_contents(*m)[k],
        r is None ==> !scope_ranges_contents(*m).contains_key(k),
{
    m.get(&k).copied()
}

/// `RangeInclusiveMap::insert`: the offsets from `start` up to and
/// including `end` map to `v` now; the others keep their locations. The
/// crate panics on a range that ends before it starts.
#[verifier::external_body]
fn scope_ranges_insert(
    m: &mut RangeInclusiveMap<usize, SymbolLocation, usize>,
    start: usize,
    end: usize,
    v: SymbolLocation,
)
    requires
        start <= end,
    ensures
        scope_ranges_contents(*final(m)) == insert_range(
            scope_ranges_contents(*old(m)),
            start,
            end,
            v,
        ),
{
    m.insert(start..=end, v);
}

/// A map from ranges of offsets to the symbols found there.
#[derive(Debug)]
pub struct SymbolRanges {
    map: RangeInclusiveMap<usize, SymbolInfo, usize>,
}

impl View for SymbolRanges {
    type V = Map<usize, SymbolInfoView>;

    closed spec fn view(&self) -> Map<usize, SymbolInfoView> {
        symbol_ranges_contents(self.map)
    }
}

impl SymbolRanges {
    /// A map that covers no offset.
    pub fn new() -> (r: Self)
        ensures
            r@ == Map::<usize, SymbolInfoView>::empty(),
    {
        SymbolRanges { map: symbol_ranges_new() }
    }

    /// The symbol found at offset `k`, if any.
    pub fn get(&self, k: usize) -> (r: Option<SymbolInfo>)
        ensures
            r matches Some(s) ==> self@.contains_key(k) && s@ == self@[k],
            r is None ==> !self@.contains_key(k),
    {
        symbol_ranges_get(&self.map, k)
    }

    /// Records `v` at every offset from `start` up to and including `end`.
    pub fn insert(&mut self, start: usize, end: usize, v: SymbolInfo)
        requires
            start <= end,
        ensures
            final(self)@ == insert_range(old(self)@, start, end, v@),
    {
        symbol_ranges_insert(&mut self.map, start, end, v);
    }
}

/// A map from ranges of offsets to the location of the definition that is
/// in scope there.
#[derive(Debug)]
pub struct ScopeRanges {
    map: RangeInclusiveMap<usize, SymbolLocation, usize>,
}

impl View for ScopeRanges {
    type V = Map<usize, SymbolLocation>;

    closed spec fn view(&self) -> Map<usize, SymbolLocation> {
        scope_ranges_contents(self.map)
    }
}

impl ScopeRanges {
    /// A map that covers no offset.
    pub fn new() -> (r: Self)
        ensures
            r@ == Map::<usize, SymbolLocation>::empty(),
    {
        ScopeRanges { map: scope_ranges_new() }
    }

    /// The location in scope at offset `k`, if any.
    pub fn get(&self, k: usize) -> (r: Option<SymbolLocation>)
        ensures
            r matches Some(l) ==> self@.contains_key(k) && l == self@[k],
            r is None ==> !self@.contains_key(k),
    {
        scope_ranges_get(&self.map, k)
    }

    /// Records `v` at every offset from `start` up to and including `end`.
    pub fn insert(&mut self, start: usize, end: usize, v: SymbolLocation)
        requires
            start <= end,
        ensures
            final(self)@ == insert_range(old(self)@, start, end, v),
    {
        scope_ranges_insert(&mut self.map, start, end, v);
    }
}

} // verus!
