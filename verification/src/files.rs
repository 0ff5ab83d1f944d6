//! The documents that the server knows: their paths and versions, the
//! dependencies between them, the errors reported against them, their
//! symbol tables and the generic types of their analysis.

use dashmap::DashMap;
use rustc_hash::FxBuildHasher;
use vstd::prelude::*;

use crate::analysis::{location_file, SymbolInfo, SymbolInfoView, SymbolLocation, SymbolTable, SymbolTableView};
use crate::generics::GenericsMap;
use crate::document::rope_text;
use crate::grammar::{GlobalStatement, Span};
use crate::name_map::names_of;
use ropey::Rope;
use crate::paths::{FileId, PathInterner};
use crate::types::DataType;
use crate::shared_maps::{
    id_lists_contents, id_lists_entries, id_lists_get, id_lists_insert, id_lists_len,
    id_lists_new, id_lists_remove, IdLists,
};

verus! {

/// A version of a document, as the editor numbers it.
#[derive(Clone, Copy, Debug, PartialEq, Eq, Hash, Structural)]
pub struct FileVersion(pub i32);

impl From<FileVersion> for i32 {
    fn from(val: FileVersion) -> (r: i32) {
        val.0
    }
}

impl vstd::std_specs::convert::FromSpecImpl<FileVersion> for i32 {
    open spec fn obeys_from_spec() -> bool {
        true
    }

    open spec fn from_spec(v: FileVersion) -> i32 {
        v.0
    }
}

impl FileVersion {
    /// The version `n` before this one, but no earlier than version 1.
    pub fn prev_n_version(&self, n: i32) -> (r: FileVersion)
        requires
            i32::MIN <= self.0 - n <= i32::MAX,
        ensures
            r.0 == (if self.0 - n < 1 {
                1
            } else {
                self.0 - n
            }),
    {
        if self.0 - n < 1 {
            return FileVersion(1);
        }
        FileVersion(self.0 - n)
    }
}


/// What a table of latest versions holds.
pub uninterp spec fn version_table_contents(m: DashMap<usize, i32, FxBuildHasher>) -> Map<usize, i32>;

/// The views of a list of errors.
pub open spec fn error_views(es: Seq<(String, Span)>) -> Seq<(Seq<char>, Span)> {
    es.map_values(|e: (String, Span)| (e.0@, e.1))
}

/// What a table of errors holds: the messages and spans reported against
/// each version of each file.
pub uninterp spec fn error_table_contents(
    m: DashMap<(usize, i32), Vec<(String, Span)>, FxBuildHasher>,
) -> Map<(usize, i32), Seq<(Seq<char>, Span)>>;

/// What a table of symbol tables holds.
pub uninterp spec fn symbol_tables_contents(m: DashMap<(usize, i32), SymbolTable, FxBuildHasher>) -> Map<
    (usize, i32),
    SymbolTableView,
>;

/// What a table of documents holds: the text of each version of each
/// file that is open.
pub uninterp spec fn document_table_contents(m: DashMap<(usize, i32), Rope, FxBuildHasher>) -> Map<
    (usize, i32),
    Seq<char>,
>;

/// What a table of semantic tokens holds: the tokens of each version of
/// each file, each a token type with its span.
pub uninterp spec fn token_table_contents(
    m: DashMap<(usize, i32), Vec<(usize, Span)>, FxBuildHasher>,
) -> Map<(usize, i32), Seq<(usize, Span)>>;

/// What a table of syntax trees holds: the global statements of each
/// version of each file.
pub uninterp spec fn ast_table_contents(
    m: DashMap<(usize, i32), Vec<(GlobalStatement, Span)>, FxBuildHasher>,
) -> Map<(usize, i32), Seq<(GlobalStatement, Span)>>;

/// The empty table of documents.
pub open spec fn no_documents() -> Map<(usize, i32), Seq<char>> {
    Map::empty()
}

/// The empty table of semantic tokens.
pub open spec fn no_tokens() -> Map<(usize, i32), Seq<(usize, Span)>> {
    Map::empty()
}

/// The empty table of syntax trees.
pub open spec fn no_asts() -> Map<(usize, i32), Seq<(GlobalStatement, Span)>> {
    Map::empty()
}

/// `DashMap::default`: a table of documents with nothing in it.
#[verifier::external_body]
fn document_table_new() -> (r: DashMap<(usize, i32), Rope, FxBuildHasher>)
    ensures
        document_table_contents(r) == no_documents(),
{
    DashMap::default()
}

/// `DashMap::insert`: `k` now has the document `v`.
#[verifier::external_body]
fn document_table_insert(m: &mut DashMap<(usize, i32), Rope, FxBuildHasher>, k: (usize, i32), v: Rope)
    ensures
        document_table_contents(*final(m)) == document_table_contents(*old(m)).insert(k, rope_text(v)),
{
    m.insert(k, v);
}

/// `DashMap::remove`: `k` has no document now; the one it had, if any,
/// comes back.
#[verifier::external_body]
fn document_table_remove(m: &mut DashMap<(usize, i32), Rope, FxBuildHasher>, k: (usize, i32)) -> (r:
    Option<Rope>)
    ensures
        document_table_contents(*final(m)) == document_table_contents(*old(m)).remove(k),
        r matches Some(d) ==> document_table_contents(*old(m)).contains_key(k) && rope_text(d)
            == document_table_contents(*old(m))[k],
        r is None ==> !document_table_contents(*old(m)).contains_key(k),
{
    m.remove(&k).map(|(_, v)| v)
}

/// `DashMap::get`, with the rope cloned: the document of `k`, if any.
#[verifier::external_body]
fn document_table_get(m: &DashMap<(usize, i32), Rope, FxBuildHasher>, k: (usize, i32)) -> (r: Option<Rope>)
    ensures
        r matches Some(d) ==> document_table_contents(*m).contains_key(k) && rope_text(d)
            == document_table_contents(*m)[k],
        r is None ==> !document_table_contents(*m).contains_key(k),
{
    m.get(&k).map(|entry| entry.value().clone())
}

/// `DashMap::default`: a table of semantic tokens with nothing in it.
#[verifier::external_body]
fn token_table_new() -> (r: DashMap<(usize, i32), Vec<(usize, Span)>, FxBuildHasher>)
    ensures
        token_table_contents(r) == no_tokens(),
{
    DashMap::default()
}

/// `DashMap::insert`: `k` now has the tokens `v`.
#[verifier::external_body]
fn token_table_insert(
    m: &mut DashMap<(usize, i32), Vec<(usize, Span)>, FxBuildHasher>,
    k: (usize, i32),
    v: Vec<(usize, Span)>,
)
    ensures
        token_table_contents(*final(m)) == token_table_contents(*old(m)).insert(k, v@),
{
    m.insert(k, v);
}

/// `DashMap::remove`: `k` has no tokens now; those it had, if any, come
/// back.
#[verifier::external_body]
fn token_table_remove(m: &mut DashMap<(usize, i32), Vec<(usize, Span)>, FxBuildHasher>, k: (usize, i32)) -> (r:
    Option<Vec<(usize, Span)>>)
    ensures
        token_table_contents(*final(m)) == token_table_contents(*old(m)).remove(k),
        r matches Some(v) ==> token_table_contents(*old(m)).contains_key(k) && v@
            == token_table_contents(*old(m))[k],
        r is None ==> !token_table_contents(*old(m)).contains_key(k),
{
    m.remove(&k).map(|(_, v)| v)
}

/// `DashMap::get`, with the list cloned: the tokens of `k`, if any.
#[verifier::external_body]
fn token_table_get(m: &DashMap<(usize, i32), Vec<(usize, Span)>, FxBuildHasher>, k: (usize, i32)) -> (r:
    Option<Vec<(usize, Span)>>)
    ensures
        r matches Some(v) ==> token_table_contents(*m).contains_key(k) && v@ == token_table_contents(*m)[k],
        r is None ==> !token_table_contents(*m).contains_key(k),
{
    m.get(&k).map(|entry| entry.value().clone())
}

/// `DashMap::default`: a table of syntax trees with nothing in it.
#[verifier::external_body]
fn ast_table_new() -> (r: DashMap<(usize, i32), Vec<(GlobalStatement, Span)>, FxBuildHasher>)
    ensures
        ast_table_contents(r) == no_asts(),
{
    DashMap::default()
}

/// `DashMap::insert`: `k` now has the syntax tree `v`.
#[verifier::external_body]
fn ast_table_insert(
    m: &mut DashMap<(usize, i32), Vec<(GlobalStatement, Span)>, FxBuildHasher>,
    k: (usize, i32),
    v: Vec<(GlobalStatement, Span)>,
)
    ensures
        ast_table_contents(*final(m)) == ast_table_contents(*old(m)).insert(k, v@),
{
    m.insert(k, v);
}

/// `DashMap::remove`: `k` has no syntax tree now; the one it had, if any,
/// comes back.
#[verifier::external_body]
fn ast_table_remove(
    m: &mut DashMap<(usize, i32), Vec<(GlobalStatement, Span)>, FxBuildHasher>,
    k: (usize, i32),
) -> (r: Option<Vec<(GlobalStatement, Span)>>)
    ensures
        ast_table_contents(*final(m)) == ast_table_contents(*old(m)).remove(k),
        r matches Some(v) ==> ast_table_contents(*old(m)).contains_key(k) && v@
            == ast_table_contents(*old(m))[k],
        r is None ==> !ast_table_contents(*old(m)).contains_key(k),
{
    m.remove(&k).map(|(_, v)| v)
}

/// The empty table of versions.
pub open spec fn no_versions() -> Map<usize, i32> {
    Map::empty()
}

/// The empty table of errors.
pub open spec fn no_errors() -> Map<(usize, i32), Seq<(Seq<char>, Span)>> {
    Map::empty()
}

/// The empty table of symbol tables.
pub open spec fn no_tables() -> Map<(usize, i32), SymbolTableView> {
    Map::empty()
}

/// `DashMap::default`: a table with nothing in it.
#[verifier::external_body]
fn version_table_new() -> (r: DashMap<usize, i32, FxBuildHasher>)
    ensures
        version_table_contents(r) == no_versions(),
{
    DashMap::default()
}

/// `DashMap::get`: the version of `k`, if there is one.
#[verifier::external_body]
fn version_table_get(m: &DashMap<usize, i32, FxBuildHasher>, k: usize) -> (r: Option<i32>)
    ensures
        r matches Some(v) ==> version_table_contents(*m).contains_key(k) && v
            == version_table_contents(*m)[k],
        r is None ==> !version_table_contents(*m).contains_key(k),
{
    m.get(&k).map(|entry| *entry.value())
}

/// `DashMap::insert`: `k` now has version `v`; the version it had before,
/// if any, comes back.
#[verifier::external_body]
fn version_table_insert(m: &mut DashMap<usize, i32, FxBuildHasher>, k: usize, v: i32) -> (r: Option<
    i32,
>)
    ensures
        version_table_contents(*final(m)) == version_table_contents(*old(m)).insert(k, v),
        r matches Some(o) ==> version_table_contents(*old(m)).contains_key(k) && o
            == version_table_contents(*old(m))[k],
        r is None ==> !version_table_contents(*old(m)).contains_key(k),
{
    m.insert(k, v)
}

/// `DashMap::default`: a table with nothing in it.
#[verifier::external_body]
fn error_table_new() -> (r: DashMap<(usize, i32), Vec<(String, Span)>, FxBuildHasher>)
    ensures
        error_table_contents(r) == no_errors(),
{
    DashMap::default()
}

/// `DashMap::get`, with the list cloned: the errors of `k`, if it has a
/// list.
#[verifier::external_body]
fn error_table_get(m: &DashMap<(usize, i32), Vec<(String, Span)>, FxBuildHasher>, k: (usize, i32)) -> (r:
    Option<Vec<(String, Span)>>)
    ensures
        r matches Some(es) ==> error_table_contents(*m).contains_key(k) && error_views(es@)
            == error_table_contents(*m)[k],
        r is None ==> !error_table_contents(*m).contains_key(k),
{
    m.get(&k).map(|entry| entry.value().clone())
}

/// `DashMap::insert`: `k` now has the list `v`.
#[verifier::external_body]
fn error_table_insert(
    m: &mut DashMap<(usize, i32), Vec<(String, Span)>, FxBuildHasher>,
    k: (usize, i32),
    v: Vec<(String, Span)>,
)
    ensures
        error_table_contents(*final(m)) == error_table_contents(*old(m)).insert(k, error_views(v@)),
{
    m.insert(k, v);
}

/// `DashMap::remove`: `k` has no list now; the one it had, if any, comes
/// back.
#[verifier::external_body]
fn error_table_remove(m: &mut DashMap<(usize, i32), Vec<(String, Span)>, FxBuildHasher>, k: (
    usize,
    i32,
)) -> (r: Option<Vec<(String, Span)>>)
    ensures
        error_table_contents(*final(m)) == error_table_contents(*old(m)).remove(k),
        r matches Some(es) ==> error_table_contents(*old(m)).contains_key(k) && error_views(es@)
            == error_table_contents(*old(m))[k],
        r is None ==> !error_table_contents(*old(m)).contains_key(k),
{
    m.remove(&k).map(|(_, v)| v)
}

/// `DashMap::default`: a table with nothing in it.
#[verifier::external_body]
fn symbol_tables_new() -> (r: DashMap<(usize, i32), SymbolTable, FxBuildHasher>)
    ensures
        symbol_tables_contents(r) == no_tables(),
{
    DashMap::default()
}

/// `DashMap::insert`: `k` now has the table `t`.
#[verifier::external_body]
fn symbol_tables_insert(m: &mut DashMap<(usize, i32), SymbolTable, FxBuildHasher>, k: (usize, i32), t: SymbolTable)
    ensures
        symbol_tables_contents(*final(m)) == symbol_tables_contents(*old(m)).insert(k, t@),
{
    m.insert(k, t);
}

/// `DashMap::remove`: `k` has no table now; the one it had, if any, comes
/// back.
#[verifier::external_body]
fn symbol_tables_remove(m: &mut DashMap<(usize, i32), SymbolTable, FxBuildHasher>, k: (
    usize,
    i32,
)) -> (r: Option<SymbolTable>)
    ensures
        symbol_tables_contents(*final(m)) == symbol_tables_contents(*old(m)).remove(k),
        r matches Some(t) ==> symbol_tables_contents(*old(m)).contains_key(k) && t@
            == symbol_tables_contents(*old(m))[k],
        r is None ==> !symbol_tables_contents(*old(m)).contains_key(k),
{
    m.remove(&k).map(|(_, t)| t)
}

/// `DashMap::view`, reading the table of `k` in place: where `k` has a
/// table, the location in force for `name` at offset `pos` in it, if any.
#[verifier::external_body]
fn symbol_tables_scope_at(
    m: &DashMap<(usize, i32), SymbolTable, FxBuildHasher>,
    k: (usize, i32),
    name: &String,
    pos: usize,
) -> (r: Option<Option<SymbolLocation>>)
    ensures
        r matches Some(l) ==> symbol_tables_contents(*m).contains_key(k) && l == scope_at(
            symbol_tables_contents(*m)[k],
            name@,
            pos,
        ),
        r is None ==> !symbol_tables_contents(*m).contains_key(k),
{
    m.view(&k, |_, t| t.scope_at(name, pos))
}

/// `DashMap::view`, reading the table of `k` in place: where `k` has a
/// table, the symbol found at offset `pos` in it, if any.
#[verifier::external_body]
fn symbol_tables_symbol_at(
    m: &DashMap<(usize, i32), SymbolTable, FxBuildHasher>,
    k: (usize, i32),
    pos: usize,
) -> (r: Option<Option<SymbolInfo>>)
    ensures
        r matches Some(s) ==> symbol_tables_contents(*m).contains_key(k) && opt_info_view(s)
            == symbol_at(symbol_tables_contents(*m)[k], pos),
        r is None ==> !symbol_tables_contents(*m).contains_key(k),
{
    m.view(&k, |_, t| t.symbols.get(pos))
}

/// `DashMap::view`, reading the table of `k` in place: where `k` has a
/// table, the names it has definitions of, each once.
#[verifier::external_body]
fn symbol_tables_definition_names(
    m: &DashMap<(usize, i32), SymbolTable, FxBuildHasher>,
    k: (usize, i32),
) -> (r: Option<Vec<String>>)
    ensures
        r matches Some(ns) ==> symbol_tables_contents(*m).contains_key(k) && names_of(ns@).no_duplicates()
            && forall|n: Seq<char>| #[trigger]
                names_of(ns@).contains(n) <==> symbol_tables_contents(*m)[k].definitions.contains_key(n),
        r is None ==> !symbol_tables_contents(*m).contains_key(k),
{
    m.view(&k, |_, t| t.definitions.keys())
}

/// The view of an optional symbol.
pub open spec fn opt_info_view(s: Option<SymbolInfo>) -> Option<SymbolInfoView> {
    match s {
        Some(i) => Some(i@),
        None => None,
    }
}

/// The location in force for `name` at offset `pos` of a table, if any.
pub open spec fn scope_at(t: SymbolTableView, name: Seq<char>, pos: usize) -> Option<SymbolLocation> {
    if t.definitions.contains_key(name) && t.definitions[name].contains_key(pos) {
        Some(t.definitions[name][pos])
    } else {
        None
    }
}

/// The symbol found at offset `pos` of a table, if any.
pub open spec fn symbol_at(t: SymbolTableView, pos: usize) -> Option<SymbolInfoView> {
    if t.symbols.contains_key(pos) {
        Some(t.symbols[pos])
    } else {
        None
    }
}

impl SymbolTable {
    /// The location in force for `name` at offset `pos`, if any.
    pub fn scope_at(&self, name: &String, pos: usize) -> (r: Option<SymbolLocation>)
        ensures
            r == scope_at(self@, name@, pos),
    {
        match self.definitions.get(name) {
            Some(scopes) => scopes.get(pos),
            None => None,
        }
    }
}

/// The file and version of a pair, as plain numbers.
pub open spec fn file_key(file: (FileId, FileVersion)) -> (usize, i32) {
    (file.0.0, file.1.0)
}

/// The keys of a list of file versions.
pub open spec fn file_keys(fs: Seq<(FileId, FileVersion)>) -> Seq<(usize, i32)> {
    fs.map_values(|f: (FileId, FileVersion)| file_key(f))
}

/// The keys of the entries whose lists hold `id`, in order.
pub open spec fn dependants(entries: Seq<((usize, i32), Vec<usize>)>, id: usize) -> Seq<(usize, i32)>
    decreases entries.len(),
{
    if entries.len() == 0 {
        Seq::empty()
    } else {
        dependants(entries.drop_last(), id) + (if entries.last().1@.contains(id) {
            seq![entries.last().0]
        } else {
            Seq::empty()
        })
    }
}

/// The keys of the entries whose lists hold `id` are those keys, and,
/// where no key repeats among the entries, none repeats among them.
pub proof fn lemma_dependants(entries: Seq<((usize, i32), Vec<usize>)>, id: usize)
    ensures
        forall|k: (usize, i32)|
            #![trigger dependants(entries, id).contains(k)]
            dependants(entries, id).contains(k) <==> exists|b: int|
                0 <= b < entries.len() && entries[b].0 == k && entries[b].1@.contains(id),
        (forall|a: int, b: int|
            0 <= a < b < entries.len() ==> #[trigger] entries[a].0 != #[trigger] entries[b].0)
            ==> dependants(entries, id).no_duplicates(),
    decreases entries.len(),
{
    if entries.len() > 0 {
        let init = entries.drop_last();
        lemma_dependants(init, id);
        let d = dependants(init, id);
        let tail = if entries.last().1@.contains(id) {
            seq![entries.last().0]
        } else {
            Seq::<(usize, i32)>::empty()
        };
        assert forall|k: (usize, i32)|
            #![trigger dependants(entries, id).contains(k)]
            dependants(entries, id).contains(k) <==> exists|b: int|
                0 <= b < entries.len() && entries[b].0 == k && entries[b].1@.contains(id) by {
            if dependants(entries, id).contains(k) {
                let j = choose|j: int| 0 <= j < (d + tail).len() && (d + tail)[j] == k;
                if j < d.len() {
                    assert(d.contains(k));
                    let b = choose|b: int|
                        0 <= b < init.len() && init[b].0 == k && init[b].1@.contains(id);
                    assert(entries[b] == init[b]);
                } else {
                    assert(entries[entries.len() - 1].0 == k);
                }
            }
            if exists|b: int| 0 <= b < entries.len() && entries[b].0 == k && entries[b].1@.contains(
                id,
            ) {
                let b = choose|b: int|
                    0 <= b < entries.len() && entries[b].0 == k && entries[b].1@.contains(id);
                if b < entries.len() - 1 {
                    assert(init[b] == entries[b]);
                    assert(d.contains(k));
                    let j = choose|j: int| 0 <= j < d.len() && d[j] == k;
                    assert((d + tail)[j] == k);
                } else {
                    assert((d + tail)[d.len() as int] == k);
                }
            }
        }
        if forall|a: int, b: int|
            0 <= a < b < entries.len() ==> #[trigger] entries[a].0 != #[trigger] entries[b].0 {
            assert forall|a: int, b: int|
                0 <= a < b < init.len() implies #[trigger] init[a].0 != #[trigger] init[b].0 by {
                assert(init[a] == entries[a] && init[b] == entries[b]);
            }
            if entries.last().1@.contains(id) {
                assert forall|j: int| 0 <= j < d.len() implies d[j] != entries.last().0 by {
                    assert(d.contains(d[j]));
                    let b = choose|b: int|
                        0 <= b < init.len() && init[b].0 == d[j] && init[b].1@.contains(id);
                    assert(entries[b].0 != entries[entries.len() - 1].0);
                }
            }
            assert(dependants(entries, id) == d + tail);
        }
    }
}

/// Whether `file` imports `dependency` within `fuel` steps: `file` has
/// imports, and one of them is `dependency` or, at its latest version,
/// does so within one step less.
pub open spec fn depends_within(
    deps: Map<(usize, i32), Seq<usize>>,
    versions: Map<usize, i32>,
    file: (usize, i32),
    dependency: usize,
    fuel: nat,
) -> bool
    decreases fuel, 0nat,
{
    fuel > 0 && deps.contains_key(file) && any_depends(
        deps,
        versions,
        deps[file],
        dependency,
        (fuel - 1) as nat,
    )
}

/// Whether one of `list` is `dependency` or, at its latest version,
/// imports it within `fuel` steps. A file without a latest version is
/// not followed.
pub open spec fn any_depends(
    deps: Map<(usize, i32), Seq<usize>>,
    versions: Map<usize, i32>,
    list: Seq<usize>,
    dependency: usize,
    fuel: nat,
) -> bool
    decreases fuel, list.len(),
{
    if list.len() == 0 {
        false
    } else {
        list[0] == dependency || (versions.contains_key(list[0]) && depends_within(
            deps,
            versions,
            (list[0], versions[list[0]]),
            dependency,
            fuel,
        )) || any_depends(deps, versions, list.drop_first(), dependency, fuel)
    }
}


/// One import step: from version `a` of a file to the latest version of a
/// file that `a` imports.
pub open spec fn import_step(
    deps: Map<(usize, i32), Seq<usize>>,
    versions: Map<usize, i32>,
    a: (usize, i32),
    b: (usize, i32),
) -> bool {
    deps.contains_key(a) && exists|i: int|
        0 <= i < deps[a].len() && versions.contains_key(#[trigger] deps[a][i]) && b == (
            deps[a][i],
            versions[deps[a][i]],
        )
}

/// A chain of import steps whose last version imports `dependency`.
pub open spec fn import_chain(
    deps: Map<(usize, i32), Seq<usize>>,
    versions: Map<usize, i32>,
    path: Seq<(usize, i32)>,
    dependency: usize,
) -> bool {
    &&& path.len() > 0
    &&& forall|i: int|
        0 <= i < path.len() - 1 ==> #[trigger] import_step(deps, versions, path[i], path[i + 1])
    &&& deps.contains_key(path.last())
    &&& deps[path.last()].contains(dependency)
}

/// One of `list` is `dependency`, or, at its latest version, imports it
/// within `fuel` steps, exactly when [`any_depends`] says so.
proof fn lemma_any_depends(
    deps: Map<(usize, i32), Seq<usize>>,
    versions: Map<usize, i32>,
    list: Seq<usize>,
    dependency: usize,
    fuel: nat,
)
    ensures
        any_depends(deps, versions, list, dependency, fuel) <==> (list.contains(dependency)
            || exists|i: int|
            0 <= i < list.len() && versions.contains_key(#[trigger] list[i]) && depends_within(
                deps,
                versions,
                (list[i], versions[list[i]]),
                dependency,
                fuel,
            )),
    decreases list.len(),
{
    if list.len() > 0 {
        let rest = list.drop_first();
        lemma_any_depends(deps, versions, rest, dependency, fuel);
        if rest.contains(dependency) {
            let j = choose|j: int| 0 <= j < rest.len() && rest[j] == dependency;
            assert(list[j + 1] == dependency);
        }
        if list.contains(dependency) && list[0] != dependency {
            let j = choose|j: int| 0 <= j < list.len() && list[j] == dependency;
            assert(rest[j - 1] == dependency);
        }
        if exists|i: int|
            0 <= i < rest.len() && versions.contains_key(#[trigger] rest[i]) && depends_within(
                deps,
                versions,
                (rest[i], versions[rest[i]]),
                dependency,
                fuel,
            ) {
            let i = choose|i: int|
                0 <= i < rest.len() && versions.contains_key(#[trigger] rest[i]) && depends_within(
                    deps,
                    versions,
                    (rest[i], versions[rest[i]]),
                    dependency,
                    fuel,
                );
            assert(list[i + 1] == rest[i]);
        }
        if exists|i: int|
            0 <= i < list.len() && versions.contains_key(#[trigger] list[i]) && depends_within(
                deps,
                versions,
                (list[i], versions[list[i]]),
                dependency,
                fuel,
            ) {
            let i = choose|i: int|
                0 <= i < list.len() && versions.contains_key(#[trigger] list[i]) && depends_within(
                    deps,
                    versions,
                    (list[i], versions[list[i]]),
                    dependency,
                    fuel,
                );
            if i > 0 {
                assert(rest[i - 1] == list[i]);
            }
        }
    }
}

/// A version imports `dependency` within `fuel` steps exactly when a chain
/// of at most `fuel` import steps leads from it to a version that imports
/// `dependency` directly.
#[verifier::spinoff_prover]
pub proof fn lemma_depends_within_chain(
    deps: Map<(usize, i32), Seq<usize>>,
    versions: Map<usize, i32>,
    file: (usize, i32),
    dependency: usize,
    fuel: nat,
)
    ensures
        depends_within(deps, versions, file, dependency, fuel) <==> exists|path: Seq<(usize, i32)>|
            #[trigger] import_chain(deps, versions, path, dependency) && path[0] == file
                && path.len() <= fuel,
    decreases fuel,
{
    if fuel > 0 && deps.contains_key(file) {
        let list = deps[file];
        lemma_any_depends(deps, versions, list, dependency, (fuel - 1) as nat);
        if depends_within(deps, versions, file, dependency, fuel) {
            if list.contains(dependency) {
                let path = seq![file];
                assert(import_chain(deps, versions, path, dependency));
            } else {
                let i = choose|i: int|
                    0 <= i < list.len() && versions.contains_key(#[trigger] list[i])
                        && depends_within(
                        deps,
                        versions,
                        (list[i], versions[list[i]]),
                        dependency,
                        (fuel - 1) as nat,
                    );
                let next = (list[i], versions[list[i]]);
                lemma_depends_within_chain(deps, versions, next, dependency, (fuel - 1) as nat);
                let tail = choose|path: Seq<(usize, i32)>|
                    #[trigger] import_chain(deps, versions, path, dependency) && path[0] == next
                        && path.len() <= fuel - 1;
                let path = seq![file] + tail;
                assert(import_chain(deps, versions, tail, dependency));
                assert(path.len() == tail.len() + 1);
                assert(import_step(deps, versions, file, next));
                assert forall|j: int|
                    0 <= j < path.len() - 1 implies #[trigger] import_step(
                    deps,
                    versions,
                    path[j],
                    path[j + 1],
                ) by {
                    if j > 0 {
                        let k = j - 1;
                        assert(0 <= k < tail.len() - 1);
                        assert(path[j] == tail[k] && path[j + 1] == tail[k + 1]);
                        assert(import_step(deps, versions, tail[k], tail[k + 1]));
                    }
                }
                assert(path.last() == tail.last());
                assert(import_chain(deps, versions, path, dependency));
            }
        }
        if exists|path: Seq<(usize, i32)>|
            #[trigger] import_chain(deps, versions, path, dependency) && path[0] == file
                && path.len() <= fuel {
            let path = choose|path: Seq<(usize, i32)>|
                #[trigger] import_chain(deps, versions, path, dependency) && path[0] == file
                    && path.len() <= fuel;
            if path.len() == 1 {
                assert(path.last() == file);
            } else {
                let k0 = 0int;
                assert(import_step(deps, versions, path[k0], path[k0 + 1]));
                let i = choose|i: int|
                    0 <= i < list.len() && versions.contains_key(#[trigger] list[i]) && path[1] == (
                        list[i],
                        versions[list[i]],
                    );
                let tail = path.drop_first();
                assert forall|j: int|
                    0 <= j < tail.len() - 1 implies #[trigger] import_step(
                    deps,
                    versions,
                    tail[j],
                    tail[j + 1],
                ) by {
                    let k = j + 1;
                    assert(import_step(deps, versions, path[k], path[k + 1]));
                }
                assert(tail.last() == path.last());
                assert(import_chain(deps, versions, tail, dependency));
                lemma_depends_within_chain(deps, versions, path[1], dependency, (fuel - 1) as nat);
            }
        }
    } else {
        if exists|path: Seq<(usize, i32)>|
            #[trigger] import_chain(deps, versions, path, dependency) && path[0] == file
                && path.len() <= fuel {
            let path = choose|path: Seq<(usize, i32)>|
                #[trigger] import_chain(deps, versions, path, dependency) && path[0] == file
                    && path.len() <= fuel;
            if path.len() > 1 {
                let k = 0int;
                assert(import_step(deps, versions, path[k], path[k + 1]));
            } else {
                assert(path.last() == path[0]);
            }
        }
    }
}

/// A chain that passes through the same version twice can do without the
/// steps in between.
proof fn lemma_chain_shortcut(
    deps: Map<(usize, i32), Seq<usize>>,
    versions: Map<usize, i32>,
    path: Seq<(usize, i32)>,
    dependency: usize,
    a: int,
    b: int,
)
    requires
        import_chain(deps, versions, path, dependency),
        0 <= a < b < path.len(),
        path[a] == path[b],
    ensures
        import_chain(deps, versions, path.take(a) + path.skip(b), dependency),
        (path.take(a) + path.skip(b))[0] == path[0],
        (path.take(a) + path.skip(b)).len() < path.len(),
{
    let p = path.take(a) + path.skip(b);
    assert(p.len() == path.len() - (b - a));
    assert forall|j: int| 0 <= j < p.len() implies #[trigger] p[j] == if j < a {
        path[j]
    } else {
        path[j + b - a]
    } by {}
    assert forall|j: int|
        0 <= j < p.len() - 1 implies #[trigger] import_step(deps, versions, p[j], p[j + 1]) by {
        if j + 1 < a {
            assert(import_step(deps, versions, path[j], path[j + 1]));
        } else if j + 1 == a {
            assert(p[j + 1] == path[b]);
            assert(import_step(deps, versions, path[j], path[j + 1]));
        } else {
            let k = j + b - a;
            assert(import_step(deps, versions, path[k], path[k + 1]));
        }
    }
    assert(p.last() == path.last());
    if a == 0 {
        assert(p[0] == path[b]);
    }
}

/// Where a chain exists, one exists that passes through no version twice.
proof fn lemma_chain_without_repeats(
    deps: Map<(usize, i32), Seq<usize>>,
    versions: Map<usize, i32>,
    path: Seq<(usize, i32)>,
    dependency: usize,
) -> (q: Seq<(usize, i32)>)
    requires
        import_chain(deps, versions, path, dependency),
    ensures
        import_chain(deps, versions, q, dependency),
        q[0] == path[0],
        q.no_duplicates(),
        q.len() <= path.len(),
    decreases path.len(),
{
    if path.no_duplicates() {
        path
    } else {
        let (x, y) = choose|x: int, y: int|
            0 <= x < path.len() && 0 <= y < path.len() && x != y && path[x] == path[y];
        let (a, b) = if x < y {
            (x, y)
        } else {
            (y, x)
        };
        lemma_chain_shortcut(deps, versions, path, dependency, a, b);
        lemma_chain_without_repeats(deps, versions, path.take(a) + path.skip(b), dependency)
    }
}

/// A chain that passes through no version twice passes only through
/// versions that have imports, so it is no longer than how many of them
/// there are.
proof fn lemma_chain_bound(
    deps: Map<(usize, i32), Seq<usize>>,
    versions: Map<usize, i32>,
    path: Seq<(usize, i32)>,
    dependency: usize,
)
    requires
        import_chain(deps, versions, path, dependency),
        path.no_duplicates(),
        deps.dom().finite(),
    ensures
        path.len() <= deps.dom().len(),
{
    assert forall|x: (usize, i32)| path.to_set().contains(x) implies deps.dom().contains(x) by {
        let j = choose|j: int| 0 <= j < path.len() && path[j] == x;
        if j < path.len() - 1 {
            assert(import_step(deps, versions, path[j], path[j + 1]));
        }
    }
    path.unique_seq_to_set();
    vstd::set_lib::lemma_len_subset(path.to_set(), deps.dom());
}

/// Whether a version of a file imports `dependency` within some number of
/// steps is decided by as many steps as there are versions with recorded
/// imports: [`Files::is_depending_on`] follows every chain of imports,
/// however long, that passes through no version twice, and so answers
/// whether any chain of imports leads to `dependency`.
pub proof fn law_dependency_found_within_bound(
    deps: Map<(usize, i32), Seq<usize>>,
    versions: Map<usize, i32>,
    file: (usize, i32),
    dependency: usize,
    fuel: nat,
)
    requires
        deps.dom().finite(),
    ensures
        depends_within(deps, versions, file, dependency, fuel) ==> depends_within(
            deps,
            versions,
            file,
            dependency,
            deps.dom().len(),
        ),
        fuel >= deps.dom().len() ==> (depends_within(deps, versions, file, dependency, fuel)
            == depends_within(deps, versions, file, dependency, deps.dom().len())),
{
    lemma_depends_within_chain(deps, versions, file, dependency, fuel);
    lemma_depends_within_chain(deps, versions, file, dependency, deps.dom().len());
    if depends_within(deps, versions, file, dependency, fuel) {
        let path = choose|path: Seq<(usize, i32)>|
            #[trigger] import_chain(deps, versions, path, dependency) && path[0] == file
                && path.len() <= fuel;
        let q = lemma_chain_without_repeats(deps, versions, path, dependency);
        lemma_chain_bound(deps, versions, q, dependency);
        assert(import_chain(deps, versions, q, dependency) && q[0] == file && q.len()
            <= deps.dom().len());
    }
    if fuel >= deps.dom().len() && depends_within(
        deps,
        versions,
        file,
        dependency,
        deps.dom().len(),
    ) {
        let path = choose|path: Seq<(usize, i32)>|
            #[trigger] import_chain(deps, versions, path, dependency) && path[0] == file
                && path.len() <= deps.dom().len();
        assert(path.len() <= fuel);
    }
}

/// What [`Files::is_depending_on`] answers, where the recorded imports are
/// finitely many: whether a chain of import steps, of any length, leads
/// from the version to one that imports `dependency` directly.
pub proof fn law_is_depending_on_follows_chains(
    deps: Map<(usize, i32), Seq<usize>>,
    versions: Map<usize, i32>,
    file: (usize, i32),
    dependency: usize,
)
    requires
        deps.dom().finite(),
    ensures
        depends_within(deps, versions, file, dependency, deps.dom().len()) <==> exists|
            path: Seq<(usize, i32)>,
        |
            #[trigger] import_chain(deps, versions, path, dependency) && path[0] == file,
{
    lemma_depends_within_chain(deps, versions, file, dependency, deps.dom().len());
    if exists|path: Seq<(usize, i32)>|
        #[trigger] import_chain(deps, versions, path, dependency) && path[0] == file {
        let path = choose|path: Seq<(usize, i32)>|
            #[trigger] import_chain(deps, versions, path, dependency) && path[0] == file;
        let q = lemma_chain_without_repeats(deps, versions, path, dependency);
        lemma_chain_bound(deps, versions, q, dependency);
        assert(import_chain(deps, versions, q, dependency) && q[0] == file && q.len()
            <= deps.dom().len());
    }
}

/// Whether `ids` holds `id`.
fn contains_id(ids: &Vec<usize>, id: usize) -> (r: bool)
    ensures
        r == ids@.contains(id),
{
    let mut i: usize = 0;
    while i < ids.len()
        invariant
            i <= ids.len(),
            forall|j: int| 0 <= j < i ==> ids@[j] != id,
        decreases ids.len() - i,
    {
        if ids[i] == id {
            return true;
        }
        i += 1;
    }
    false
}

/// Whether `a` begins `b`.
pub open spec fn prefix_of<A>(a: Seq<A>, b: Seq<A>) -> bool {
    a.len() <= b.len() && forall|i: int| 0 <= i < a.len() ==> a[i] == b[i]
}

/// Extending is reflexive.
pub proof fn lemma_extends_refl(a: &Files)
    ensures
        a.extends(a),
{
}

/// Extending is transitive.
pub proof fn lemma_extends_trans(a: &Files, b: &Files, c: &Files)
    requires
        b.extends(a),
        c.extends(b),
    ensures
        c.extends(a),
{
    lemma_grows_trans(a, b, c);
}

/// The files are well formed exactly when no path is known twice, the
/// generic types are free of cycles and finitely many versions have
/// recorded imports; extending keeps them so.
pub proof fn lemma_wf(a: &Files, b: &Files)
    ensures
        a.wf() == (a.paths().no_duplicates() && a.generics().wf() && a.dependencies().dom().finite()),
        b.grows(a) && b.generics().wf() == a.generics().wf() ==> b.wf() == a.wf(),
        b.extends(a) ==> b.wf() == a.wf(),
{
}

/// Growing is transitive.
pub proof fn lemma_grows_trans(a: &Files, b: &Files, c: &Files)
    requires
        b.grows(a),
        c.grows(b),
    ensures
        c.grows(a),
{
    assert forall|k: (usize, i32)| #![trigger c.errors_of(k)] prefix_of(a.errors_of(k), c.errors_of(k)) by {
        assert(prefix_of(a.errors_of(k), b.errors_of(k)));
        assert(prefix_of(b.errors_of(k), c.errors_of(k)));
    }
    assert forall|k: (usize, i32)|
        #![trigger c.symbol_tables().contains_key(k)]
        a.symbol_tables().contains_key(k) implies c.symbol_tables().contains_key(k) by {
        assert(b.symbol_tables().contains_key(k));
    }
}

/// The documents that the server knows.
pub struct Files {
    paths: PathInterner,
    file_versions: DashMap<usize, i32, FxBuildHasher>,
    file_dependencies: IdLists,
    errors: DashMap<(usize, i32), Vec<(String, Span)>, FxBuildHasher>,
    symbol_table: DashMap<(usize, i32), SymbolTable, FxBuildHasher>,
    generic_types: GenericsMap,
    document_map: DashMap<(usize, i32), Rope, FxBuildHasher>,
    semantic_token_map: DashMap<(usize, i32), Vec<(usize, Span)>, FxBuildHasher>,
    ast_map: DashMap<(usize, i32), Vec<(GlobalStatement, Span)>, FxBuildHasher>,
}

impl Files {
    /// The paths of the documents; the id of each is its position.
    pub closed spec fn paths(&self) -> Seq<Seq<char>> {
        self.paths@
    }

    /// The latest version of each file.
    pub closed spec fn versions(&self) -> Map<usize, i32> {
        version_table_contents(self.file_versions)
    }

    /// The files that each version of a file imports.
    pub closed spec fn dependencies(&self) -> Map<(usize, i32), Seq<usize>> {
        id_lists_contents(self.file_dependencies)
    }

    /// The errors reported against each version of each file.
    pub closed spec fn errors(&self) -> Map<(usize, i32), Seq<(Seq<char>, Span)>> {
        error_table_contents(self.errors)
    }

    /// The text of each open version of each file.
    pub closed spec fn documents(&self) -> Map<(usize, i32), Seq<char>> {
        document_table_contents(self.document_map)
    }

    /// The semantic tokens of each version of each file.
    pub closed spec fn semantic_tokens(&self) -> Map<(usize, i32), Seq<(usize, Span)>> {
        token_table_contents(self.semantic_token_map)
    }

    /// The syntax tree of each version of each file.
    pub closed spec fn asts(&self) -> Map<(usize, i32), Seq<(GlobalStatement, Span)>> {
        ast_table_contents(self.ast_map)
    }

    /// The symbol table of each version of each file.
    pub closed spec fn symbol_tables(&self) -> Map<(usize, i32), SymbolTableView> {
        symbol_tables_contents(self.symbol_table)
    }

    /// The generic types of the analysis.
    pub closed spec fn generics(&self) -> GenericsMap {
        self.generic_types
    }

    /// No path is known twice, and the generic types are free of cycles.
    pub closed spec fn wf(&self) -> bool {
        self.paths.wf() && self.generic_types.wf() && self.dependencies().dom().finite()
    }

    /// The errors reported against a version of a file; none where none
    /// were.
    pub open spec fn errors_of(&self, k: (usize, i32)) -> Seq<(Seq<char>, Span)> {
        if self.errors().contains_key(k) {
            self.errors()[k]
        } else {
            Seq::empty()
        }
    }

    /// The files that a version of a file imports; none where none are
    /// recorded.
    pub open spec fn dependencies_of(&self, k: (usize, i32)) -> Seq<usize> {
        if self.dependencies().contains_key(k) {
            self.dependencies()[k]
        } else {
            Seq::empty()
        }
    }

    /// Nothing known yet.
    pub fn new() -> (r: Self)
        ensures
            r.wf(),
            r.paths() == Seq::<Seq<char>>::empty(),
            r.versions() == no_versions(),
            r.dependencies() == Map::<(usize, i32), Seq<usize>>::empty(),
            r.errors() == no_errors(),
            r.symbol_tables() == no_tables(),
            r.documents() == Map::<(usize, i32), Seq<char>>::empty(),
            r.semantic_tokens() == Map::<(usize, i32), Seq<(usize, Span)>>::empty(),
            r.asts() == Map::<(usize, i32), Seq<(GlobalStatement, Span)>>::empty(),
            r.generics().types() == Map::<usize, crate::types::Ty>::empty(),
            r.generics().inferred_ids() == Set::<usize>::empty(),
            r.generics().ids_per_file() == Map::<(usize, i32), Seq<usize>>::empty(),
    {
        let paths = PathInterner::default();
        proof {
            assert(paths@.no_duplicates());
        }
        Files {
            paths,
            file_versions: version_table_new(),
            file_dependencies: id_lists_new(),
            errors: error_table_new(),
            symbol_table: symbol_tables_new(),
            generic_types: GenericsMap::new(),
            document_map: document_table_new(),
            semantic_token_map: token_table_new(),
            ast_map: ast_table_new(),
        }
    }

    /// What is left of the files once the data of version `k` is dropped:
    /// its errors, its symbol table, its dependencies and its generic ids.
    pub open spec fn dropped(&self, before: &Files, k: (usize, i32)) -> bool {
        &&& self.errors() == before.errors().remove(k)
        &&& self.documents() == before.documents().remove(k)
        &&& self.semantic_tokens() == before.semantic_tokens().remove(k)
        &&& self.asts() == before.asts().remove(k)
        &&& self.symbol_tables() == before.symbol_tables().remove(k)
        &&& self.dependencies() == before.dependencies().remove(k)
        &&& self.generics().types() == before.generics().types().remove_keys(
            before.generics().ids_of_file(k.0, k.1).to_set(),
        )
        &&& self.generics().inferred_ids() == before.generics().inferred_ids().difference(
            before.generics().ids_of_file(k.0, k.1).to_set(),
        )
        &&& self.generics().ids_per_file() == before.generics().ids_per_file().remove(k)
    }

    /// Everything but the paths and versions is as in `before`.
    pub open spec fn data_unchanged(&self, before: &Files) -> bool {
        &&& self.errors() == before.errors()
        &&& self.documents() == before.documents()
        &&& self.semantic_tokens() == before.semantic_tokens()
        &&& self.asts() == before.asts()
        &&& self.symbol_tables() == before.symbol_tables()
        &&& self.dependencies() == before.dependencies()
        &&& self.generics().types() == before.generics().types()
        &&& self.generics().inferred_ids() == before.generics().inferred_ids()
        &&& self.generics().ids_per_file() == before.generics().ids_per_file()
    }

    /// `self` is `before` with errors and symbols added: the paths,
    /// versions, imports and generic types are as they were, the errors of
    /// each version of a file begin with those it had, and each version
    /// that had a symbol table still has one.
    pub open spec fn extends(&self, before: &Files) -> bool {
        &&& self.grows(before)
        &&& self.generics() == before.generics()
    }

    /// `self` is `before` with errors and symbols added, as
    /// [`Files::extends`] says, save that the generic types may differ.
    pub open spec fn grows(&self, before: &Files) -> bool {
        &&& self.paths() == before.paths()
        &&& self.versions() == before.versions()
        &&& self.dependencies() == before.dependencies()
        &&& forall|k: (usize, i32)|
            #![trigger self.errors_of(k)]
            prefix_of(before.errors_of(k), self.errors_of(k))
        &&& forall|k: (usize, i32)|
            #![trigger self.symbol_tables().contains_key(k)]
            before.symbol_tables().contains_key(k) ==> self.symbol_tables().contains_key(k)
    }

    /// Records `path`, if it is new, and makes `version` its latest
    /// version, as [`Files::add_new_file_version`] does; returns its id.
    pub fn insert(&mut self, path: String, version: FileVersion) -> (r: FileId)
        requires
            old(self).wf(),
        ensures
            final(self).wf(),
            old(self).paths().contains(path@) ==> final(self).paths() == old(self).paths(),
            !old(self).paths().contains(path@) ==> final(self).paths() == old(self).paths().push(
                path@,
            ),
            r.0 < final(self).paths().len(),
            final(self).paths()[r.0 as int] == path@,
            final(self).versions() == old(self).versions().insert(r.0, version.0),
            old(self).versions().contains_key(r.0) ==> final(self).dropped(
                old(self),
                (r.0, old(self).versions()[r.0]),
            ),
            !old(self).versions().contains_key(r.0) ==> final(self).data_unchanged(old(self)),
    {
        let file_id = self.paths.insert(path);
        let ghost mid = *self;
        self.add_new_file_version(file_id, version);
        file_id
    }

    /// The path of a file.
    pub fn lookup(&self, file_id: &FileId) -> (r: String)
        requires
            file_id.0 < self.paths().len(),
        ensures
            r@ == self.paths()[file_id.0 as int],
    {
        self.paths.lookup(file_id)
    }

    /// The id of a path, if it is known.
    pub fn get(&self, path: &str) -> (r: Option<FileId>)
        requires
            self.wf(),
        ensures
            r matches Some(id) ==> id.0 < self.paths().len() && self.paths()[id.0 as int] == path@,
            r is None <==> !self.paths().contains(path@),
    {
        self.paths.get(path)
    }

    /// Makes `version` the latest version of a file, and drops the data of
    /// the version that was the latest before, if any.
    pub fn add_new_file_version(&mut self, file_id: FileId, version: FileVersion)
        requires
            old(self).wf(),
        ensures
            final(self).wf(),
            final(self).paths() == old(self).paths(),
            final(self).versions() == old(self).versions().insert(file_id.0, version.0),
            old(self).versions().contains_key(file_id.0) ==> final(self).dropped(
                old(self),
                (file_id.0, old(self).versions()[file_id.0]),
            ),
            !old(self).versions().contains_key(file_id.0) ==> final(self).data_unchanged(
                old(self),
            ),
    {
        if let Some(old_version) = version_table_insert(&mut self.file_versions, file_id.0, version.0) {
            self.remove_file_version(file_id, FileVersion(old_version));
        }
    }

    /// Drops the data of a version of a file.
    fn remove_file_version(&mut self, file_id: FileId, version: FileVersion)
        requires
            old(self).wf(),
        ensures
            final(self).wf(),
            final(self).paths() == old(self).paths(),
            final(self).versions() == old(self).versions(),
            final(self).dropped(old(self), (file_id.0, version.0)),
    {
        let k = (file_id.0, version.0);
        error_table_remove(&mut self.errors, k);
        document_table_remove(&mut self.document_map, k);
        token_table_remove(&mut self.semantic_token_map, k);
        ast_table_remove(&mut self.ast_map, k);
        symbol_tables_remove(&mut self.symbol_table, k);
        self.generic_types.clean(file_id.0, version.0);
        id_lists_remove(&mut self.file_dependencies, k);
    }

    /// Moves the data of the latest version of a file to `new_version`:
    /// its errors, its symbol table and its generic ids. Nothing changes
    /// where the latest version is `new_version` already.
    pub fn change_latest_file_version(&mut self, file_id: FileId, new_version: FileVersion)
        requires
            old(self).wf(),
            old(self).versions().contains_key(file_id.0),
            old(self).versions()[file_id.0] != new_version.0 ==> old(self).errors().contains_key(
                (file_id.0, old(self).versions()[file_id.0]),
            ),
            old(self).versions()[file_id.0] != new_version.0 ==> old(
                self,
            ).symbol_tables().contains_key((file_id.0, old(self).versions()[file_id.0])),
            old(self).versions()[file_id.0] != new_version.0 ==> old(self).documents().contains_key(
                (file_id.0, old(self).versions()[file_id.0]),
            ),
            old(self).versions()[file_id.0] != new_version.0 ==> old(self).semantic_tokens().contains_key(
                (file_id.0, old(self).versions()[file_id.0]),
            ),
            old(self).versions()[file_id.0] != new_version.0 ==> old(self).asts().contains_key(
                (file_id.0, old(self).versions()[file_id.0]),
            ),
        ensures
            final(self).wf(),
            final(self).paths() == old(self).paths(),
            final(self).versions() == old(self).versions(),
            final(self).dependencies() == old(self).dependencies(),
            final(self).generics().types() == old(self).generics().types(),
            final(self).generics().inferred_ids() == old(self).generics().inferred_ids(),
            ({
                let cur = (file_id.0, old(self).versions()[file_id.0]);
                let new = (file_id.0, new_version.0);
                if cur.1 == new.1 {
                    &&& final(self).errors() == old(self).errors()
                    &&& final(self).documents() == old(self).documents()
                    &&& final(self).semantic_tokens() == old(self).semantic_tokens()
                    &&& final(self).asts() == old(self).asts()
                    &&& final(self).symbol_tables() == old(self).symbol_tables()
                    &&& final(self).generics().ids_per_file() == old(self).generics().ids_per_file()
                } else {
                    &&& final(self).errors() == old(self).errors().remove(cur).insert(
                        new,
                        old(self).errors()[cur],
                    )
                    &&& final(self).documents() == old(self).documents().remove(cur).insert(
                        new,
                        old(self).documents()[cur],
                    )
                    &&& final(self).semantic_tokens() == old(self).semantic_tokens().remove(cur).insert(
                        new,
                        old(self).semantic_tokens()[cur],
                    )
                    &&& final(self).asts() == old(self).asts().remove(cur).insert(
                        new,
                        old(self).asts()[cur],
                    )
                    &&& final(self).symbol_tables() == old(self).symbol_tables().remove(cur).insert(
                        new,
                        old(self).symbol_tables()[cur],
                    )
                    &&& final(self).generics().ids_per_file()
                        == old(self).generics().ids_per_file().insert(
                        new,
                        old(self).generics().ids_of_file(cur.0, cur.1),
                    )
                }
            }),
    {
        let current_version = self.get_latest_version(file_id);
        if current_version == new_version {
            return;
        }
        let cur = (file_id.0, current_version.0);
        let new = (file_id.0, new_version.0);
        match error_table_remove(&mut self.errors, cur) {
            Some(errors) => error_table_insert(&mut self.errors, new, errors),
            None => {},
        }
        match symbol_tables_remove(&mut self.symbol_table, cur) {
            Some(table) => symbol_tables_insert(&mut self.symbol_table, new, table),
            None => {},
        }
        match document_table_remove(&mut self.document_map, cur) {
            Some(d) => document_table_insert(&mut self.document_map, new, d),
            None => {},
        }
        match token_table_remove(&mut self.semantic_token_map, cur) {
            Some(t) => token_table_insert(&mut self.semantic_token_map, new, t),
            None => {},
        }
        match ast_table_remove(&mut self.ast_map, cur) {
            Some(a) => ast_table_insert(&mut self.ast_map, new, a),
            None => {},
        }
        let generics = self.generic_types.get_generics(file_id.0, current_version.0);
        self.generic_types.insert(file_id.0, new_version.0, generics);
    }

    /// Makes `text` the document of version `k` of a file.
    pub fn insert_document(&mut self, k: (usize, i32), text: Rope)
        ensures
            final(self).documents() == old(self).documents().insert(k, rope_text(text)),
            final(self).paths() == old(self).paths(),
            final(self).versions() == old(self).versions(),
            final(self).errors() == old(self).errors(),
            final(self).symbol_tables() == old(self).symbol_tables(),
            final(self).dependencies() == old(self).dependencies(),
            final(self).generics() == old(self).generics(),
            final(self).semantic_tokens() == old(self).semantic_tokens(),
            final(self).asts() == old(self).asts(),
            final(self).wf() == old(self).wf(),
    {
        document_table_insert(&mut self.document_map, k, text);
    }

    /// Makes `tokens` the semantic tokens of version `k` of a file.
    pub fn insert_semantic_tokens(&mut self, k: (usize, i32), tokens: Vec<(usize, Span)>)
        ensures
            final(self).semantic_tokens() == old(self).semantic_tokens().insert(k, tokens@),
            final(self).paths() == old(self).paths(),
            final(self).versions() == old(self).versions(),
            final(self).errors() == old(self).errors(),
            final(self).symbol_tables() == old(self).symbol_tables(),
            final(self).dependencies() == old(self).dependencies(),
            final(self).generics() == old(self).generics(),
            final(self).documents() == old(self).documents(),
            final(self).asts() == old(self).asts(),
            final(self).wf() == old(self).wf(),
    {
        token_table_insert(&mut self.semantic_token_map, k, tokens);
    }

    /// Makes `ast` the syntax tree of version `k` of a file.
    pub fn insert_ast(&mut self, k: (usize, i32), ast: Vec<(GlobalStatement, Span)>)
        ensures
            final(self).asts() == old(self).asts().insert(k, ast@),
            final(self).paths() == old(self).paths(),
            final(self).versions() == old(self).versions(),
            final(self).errors() == old(self).errors(),
            final(self).symbol_tables() == old(self).symbol_tables(),
            final(self).dependencies() == old(self).dependencies(),
            final(self).generics() == old(self).generics(),
            final(self).documents() == old(self).documents(),
            final(self).semantic_tokens() == old(self).semantic_tokens(),
            final(self).wf() == old(self).wf(),
    {
        ast_table_insert(&mut self.ast_map, k, ast);
    }

    /// The semantic tokens of version `k` of a file, if it has any.
    pub fn semantic_tokens_of(&self, k: (usize, i32)) -> (r: Option<Vec<(usize, Span)>>)
        ensures
            r matches Some(t) ==> self.semantic_tokens().contains_key(k) && t@ == self.semantic_tokens()[k],
            r is None ==> !self.semantic_tokens().contains_key(k),
    {
        token_table_get(&self.semantic_token_map, k)
    }

    /// The document of the latest version of a file with that version,
    /// where the file has a latest version and that version a document.
    pub fn get_document_latest_version(&self, file_id: FileId) -> (r: Option<(Rope, FileVersion)>)
        ensures
            match r {
                Some((d, v)) => self.versions().contains_key(file_id.0) && v.0 == self.versions()[file_id.0]
                    && self.documents().contains_key((file_id.0, v.0)) && rope_text(d) == self.documents()[(
                    file_id.0,
                    v.0,
                )],
                None => !self.versions().contains_key(file_id.0) || !self.documents().contains_key(
                    (file_id.0, self.versions()[file_id.0]),
                ),
            },
    {
        let version = match version_table_get(&self.file_versions, file_id.0) {
            Some(v) => v,
            None => return None,
        };
        match document_table_get(&self.document_map, (file_id.0, version)) {
            Some(d) => Some((d, FileVersion(version))),
            None => None,
        }
    }

    /// The latest version of a file.
    pub fn get_latest_version(&self, file_id: FileId) -> (r: FileVersion)
        requires
            self.versions().contains_key(file_id.0),
        ensures
            r.0 == self.versions()[file_id.0],
    {
        match version_table_get(&self.file_versions, file_id.0) {
            Some(v) => FileVersion(v),
            None => FileVersion(1),
        }
    }

    /// Adds an error with its message and span to those of a version of a
    /// file.
    pub fn report_error(&mut self, file: &(FileId, FileVersion), msg: &str, span: Span)
        ensures
            final(self).errors() == old(self).errors().insert(
                file_key(*file),
                old(self).errors_of(file_key(*file)).push((msg@, span)),
            ),
            final(self).paths() == old(self).paths(),
            final(self).versions() == old(self).versions(),
            final(self).dependencies() == old(self).dependencies(),
            final(self).symbol_tables() == old(self).symbol_tables(),
            final(self).generics() == old(self).generics(),
            final(self).extends(old(self)),
            final(self).errors_of(file_key(*file)) == old(self).errors_of(file_key(*file)).push(
                (msg@, span),
            ),
    {
        let k = (file.0.0, file.1.0);
        let mut errors = match error_table_get(&self.errors, k) {
            Some(errors) => errors,
            None => Vec::new(),
        };
        let ghost before = errors@;
        proof {
            assert(error_views(before) =~= old(self).errors_of(k));
        }
        errors.push((String::from_str(msg), span));
        proof {
            assert(error_views(errors@) =~= error_views(before).push((msg@, span)));
        }
        error_table_insert(&mut self.errors, k, errors);
        proof {
            assert forall|j: (usize, i32)|
                #![trigger self.errors_of(j)]
                prefix_of(old(self).errors_of(j), self.errors_of(j)) by {
                if j == k {
                    assert(self.errors_of(j) == old(self).errors_of(j).push((msg@, span)));
                }
            }
        }
    }

    /// The versions of files whose imports include `file_id`, each once,
    /// in an order that the table leaves open.
    pub fn get_files_dependant_on(&self, file_id: FileId) -> (r: Vec<(FileId, FileVersion)>)
        ensures
            forall|i: int|
                0 <= i < r@.len() ==> self.dependencies().contains_key(#[trigger] file_key(r@[i]))
                    && self.dependencies()[file_key(r@[i])].contains(file_id.0),
            forall|k: (usize, i32)|
                self.dependencies().contains_key(k) && self.dependencies()[k].contains(file_id.0)
                    ==> exists|i: int| 0 <= i < r@.len() && #[trigger] file_key(r@[i]) == k,
            forall|i: int, j: int|
                0 <= i < j < r@.len() ==> file_key(#[trigger] r@[i]) != file_key(#[trigger] r@[j]),
    {
        let entries = id_lists_entries(&self.file_dependencies);
        let ghost deps = self.dependencies();
        let mut out: Vec<(FileId, FileVersion)> = Vec::new();
        let mut i: usize = 0;
        while i < entries.len()
            invariant
                i <= entries.len(),
                file_keys(out@) == dependants(entries@.take(i as int), file_id.0),
            decreases entries.len() - i,
        {
            let key = entries[i].0;
            let ghost before = out@;
            proof {
                assert(entries@.take(i + 1).drop_last() =~= entries@.take(i as int));
            }
            if contains_id(&entries[i].1, file_id.0) {
                out.push((FileId(key.0), FileVersion(key.1)));
                proof {
                    assert(file_keys(out@) =~= file_keys(before).push(key));
                }
            }
            i += 1;
        }
        proof {
            assert(entries@.take(i as int) =~= entries@);
            lemma_dependants(entries@, file_id.0);
            assert forall|a: int| 0 <= a < out@.len() implies deps.contains_key(
                #[trigger] file_key(out@[a]),
            ) && deps[file_key(out@[a])].contains(file_id.0) by {
                assert(file_keys(out@)[a] == file_key(out@[a]));
                assert(dependants(entries@, file_id.0).contains(file_key(out@[a])));
            }
            assert forall|k: (usize, i32)|
                deps.contains_key(k) && deps[k].contains(file_id.0) implies exists|a: int|
                    0 <= a < out@.len() && #[trigger] file_key(out@[a]) == k by {
                let b = choose|b: int| 0 <= b < entries@.len() && #[trigger] entries@[b].0 == k;
                assert(dependants(entries@, file_id.0).contains(k));
                let a = choose|a: int| 0 <= a < file_keys(out@).len() && file_keys(out@)[a] == k;
                assert(file_key(out@[a]) == k);
            }
            assert forall|a: int, c: int|
                0 <= a < c < out@.len() implies file_key(#[trigger] out@[a]) != file_key(
                    #[trigger] out@[c],
                ) by {
                assert(file_keys(out@)[a] == file_key(out@[a]));
                assert(file_keys(out@)[c] == file_key(out@[c]));
            }
        }
        out
    }

    /// Records that a version of a file imports `dependency`.
    pub fn add_file_dependency(&mut self, file: &(FileId, FileVersion), dependency: FileId)
        ensures
            final(self).dependencies() == old(self).dependencies().insert(
                file_key(*file),
                old(self).dependencies_of(file_key(*file)).push(dependency.0),
            ),
            final(self).paths() == old(self).paths(),
            final(self).versions() == old(self).versions(),
            final(self).errors() == old(self).errors(),
            final(self).symbol_tables() == old(self).symbol_tables(),
            final(self).generics() == old(self).generics(),
    {
        let k = (file.0.0, file.1.0);
        let mut deps = match id_lists_get(&self.file_dependencies, k) {
            Some(deps) => deps,
            None => Vec::new(),
        };
        deps.push(dependency.0);
        id_lists_insert(&mut self.file_dependencies, k, deps);
    }

    /// Whether a version of a file imports `dependency`, directly or
    /// through the latest versions of the files it imports, as
    /// [`depends_within`] says, following chains of as many imports as
    /// there are versions with recorded imports: enough for every chain
    /// in which no version repeats. So it answers whether some chain of
    /// import steps, of any length, leads from the version to one that
    /// imports `dependency` directly.
    pub fn is_depending_on(&self, file: &(FileId, FileVersion), dependency: FileId) -> (r: bool)
        requires
            self.wf(),
        ensures
            r == depends_within(
                self.dependencies(),
                self.versions(),
                file_key(*file),
                dependency.0,
                self.dependencies().dom().len(),
            ),
            r <==> exists|path: Seq<(usize, i32)>|
                #[trigger] import_chain(self.dependencies(), self.versions(), path, dependency.0)
                    && path[0] == file_key(*file),
    {
        let fuel = id_lists_len(&self.file_dependencies);
        proof {
            law_is_depending_on_follows_chains(
                self.dependencies(),
                self.versions(),
                file_key(*file),
                dependency.0,
            );
        }
        self.depends_on((file.0.0, file.1.0), dependency.0, fuel)
    }

    fn depends_on(&self, file: (usize, i32), dependency: usize, fuel: usize) -> (r: bool)
        ensures
            r == depends_within(self.dependencies(), self.versions(), file, dependency, fuel as nat),
        decreases fuel, 0nat,
    {
        if fuel == 0 {
            return false;
        }
        match id_lists_get(&self.file_dependencies, file) {
            Some(deps) => {
                proof {
                    assert(deps@.skip(0) =~= deps@);
                }
                self.any_depends_on(&deps, 0, dependency, fuel - 1)
            },
            None => false,
        }
    }

    fn any_depends_on(&self, deps: &Vec<usize>, i: usize, dependency: usize, fuel: usize) -> (r:
        bool)
        requires
            i <= deps@.len(),
        ensures
            r == any_depends(
                self.dependencies(),
                self.versions(),
                deps@.skip(i as int),
                dependency,
                fuel as nat,
            ),
        decreases fuel, deps@.len() - i,
    {
        if i >= deps.len() {
            return false;
        }
        let ghost rest = deps@.skip(i as int);
        proof {
            assert(rest[0] == deps@[i as int]);
            assert(rest.drop_first() =~= deps@.skip(i + 1));
        }
        let dep = deps[i];
        if dep == dependency {
            return true;
        }
        let found = match version_table_get(&self.file_versions, dep) {
            Some(v) => self.depends_on((dep, v), dependency, fuel),
            None => false,
        };
        if found {
            return true;
        }
        self.any_depends_on(deps, i + 1, dependency, fuel)
    }

    /// Where version `k` of a file has a symbol table, the location in
    /// force for `name` at offset `pos` in it, if any.
    pub fn scope_at(&self, k: (usize, i32), name: &String, pos: usize) -> (r: Option<Option<SymbolLocation>>)
        ensures
            r matches Some(l) ==> self.symbol_tables().contains_key(k) && l == scope_at(
                self.symbol_tables()[k],
                name@,
                pos,
            ),
            r is None ==> !self.symbol_tables().contains_key(k),
    {
        symbol_tables_scope_at(&self.symbol_table, k, name, pos)
    }

    /// Where version `k` of a file has a symbol table, the symbol found at
    /// offset `pos` in it, if any.
    pub fn symbol_at(&self, k: (usize, i32), pos: usize) -> (r: Option<Option<SymbolInfo>>)
        ensures
            r matches Some(s) ==> self.symbol_tables().contains_key(k) && opt_info_view(s)
                == symbol_at(self.symbol_tables()[k], pos),
            r is None ==> !self.symbol_tables().contains_key(k),
    {
        symbol_tables_symbol_at(&self.symbol_table, k, pos)
    }

    /// Where version `k` of a file has a symbol table, the names it has
    /// definitions of, each once, in an order that is left open.
    pub fn definition_names(&self, k: (usize, i32)) -> (r: Option<Vec<String>>)
        ensures
            r matches Some(ns) ==> self.symbol_tables().contains_key(k) && names_of(ns@).no_duplicates()
                && forall|n: Seq<char>| #[trigger]
                    names_of(ns@).contains(n) <==> self.symbol_tables()[k].definitions.contains_key(n),
            r is None ==> !self.symbol_tables().contains_key(k),
    {
        symbol_tables_definition_names(&self.symbol_table, k)
    }

    /// Takes the symbol table of version `k` of a file out, if it has one.
    pub fn take_symbol_table(&mut self, k: (usize, i32)) -> (r: Option<SymbolTable>)
        ensures
            r matches Some(t) ==> old(self).symbol_tables().contains_key(k) && t@ == old(
                self,
            ).symbol_tables()[k],
            r is None ==> !old(self).symbol_tables().contains_key(k),
            final(self).symbol_tables() == old(self).symbol_tables().remove(k),
            final(self).paths() == old(self).paths(),
            final(self).versions() == old(self).versions(),
            final(self).dependencies() == old(self).dependencies(),
            final(self).errors() == old(self).errors(),
            final(self).generics() == old(self).generics(),
    {
        symbol_tables_remove(&mut self.symbol_table, k)
    }

    /// Makes `t` the symbol table of version `k` of a file.
    pub fn put_symbol_table(&mut self, k: (usize, i32), t: SymbolTable)
        ensures
            final(self).symbol_tables() == old(self).symbol_tables().insert(k, t@),
            final(self).paths() == old(self).paths(),
            final(self).versions() == old(self).versions(),
            final(self).dependencies() == old(self).dependencies(),
            final(self).errors() == old(self).errors(),
            final(self).generics() == old(self).generics(),
    {
        symbol_tables_insert(&mut self.symbol_table, k, t);
    }

    /// The generic types of the analysis.
    pub fn generic_types(&self) -> (r: &GenericsMap)
        ensures
            *r == self.generics(),
            self.wf() ==> r.wf(),
    {
        &self.generic_types
    }

    /// Where version `k` of a file has a symbol table, records `info` over
    /// the offsets from `start` up to and including `end` in it, and says
    /// so; otherwise changes nothing.
    pub fn record_symbol(&mut self, k: (usize, i32), start: usize, end: usize, info: SymbolInfo) -> (r: bool)
        requires
            start <= end,
        ensures
            r == old(self).symbol_tables().contains_key(k),
            r ==> final(self).symbol_tables() == old(self).symbol_tables().insert(
                k,
                crate::analysis::with_symbol(old(self).symbol_tables()[k], start, end, info@),
            ),
            !r ==> final(self).symbol_tables() == old(self).symbol_tables(),
            final(self).errors() == old(self).errors(),
            final(self).extends(old(self)),
    {
        let ghost info_view = info@;
        match self.take_symbol_table(k) {
            Some(mut table) => {
                table.symbols.insert(start, end, info);
                self.put_symbol_table(k, table);
                assert(self.symbol_tables() =~= old(self).symbol_tables().insert(
                    k,
                    crate::analysis::with_symbol(old(self).symbol_tables()[k], start, end, info_view),
                ));
                true
            },
            None => false,
        }
    }

    /// The symbol table of version `k` of a file, taken out; a new empty
    /// one where it has none.
    pub fn take_or_new_table(&mut self, k: (usize, i32)) -> (r: SymbolTable)
        ensures
            r@ == (if old(self).symbol_tables().contains_key(k) {
                old(self).symbol_tables()[k]
            } else {
                crate::analysis::empty_table()
            }),
            final(self).symbol_tables() == old(self).symbol_tables().remove(k),
            final(self).paths() == old(self).paths(),
            final(self).versions() == old(self).versions(),
            final(self).dependencies() == old(self).dependencies(),
            final(self).errors() == old(self).errors(),
            final(self).generics() == old(self).generics(),
    {
        match self.take_symbol_table(k) {
            Some(table) => table,
            None => SymbolTable::default(),
        }
    }

    /// Where version `k` of a file has a symbol table, records `info` over
    /// the offsets from `start` up to and including `end` in it and adds
    /// `loc` to the references to `name`, and says so; otherwise changes
    /// nothing.
    pub fn record_call(
        &mut self,
        k: (usize, i32),
        start: usize,
        end: usize,
        info: SymbolInfo,
        name: &String,
        loc: SymbolLocation,
    ) -> (r: bool)
        requires
            start <= end,
        ensures
            r == old(self).symbol_tables().contains_key(k),
            r ==> final(self).symbol_tables() == old(self).symbol_tables().insert(
                k,
                crate::analysis::called(old(self).symbol_tables()[k], start, end, info@, name@, loc),
            ),
            !r ==> final(self).symbol_tables() == old(self).symbol_tables(),
            final(self).errors() == old(self).errors(),
            final(self).extends(old(self)),
    {
        let ghost info_view = info@;
        match self.take_symbol_table(k) {
            Some(mut table) => {
                table.symbols.insert(start, end, info);
                table.add_reference(name, loc);
                self.put_symbol_table(k, table);
                true
            },
            None => false,
        }
    }

    /// The errors reported against a version of a file, oldest first.
    pub fn errors_of_file(&self, file: &(FileId, FileVersion)) -> (r: Vec<(String, Span)>)
        ensures
            error_views(r@) == self.errors_of(file_key(*file)),
    {
        match error_table_get(&self.errors, (file.0.0, file.1.0)) {
            Some(errors) => errors,
            None => {
                let r: Vec<(String, Span)> = Vec::new();
                assert(error_views(r@) =~= self.errors_of(file_key(*file)));
                r
            },
        }
    }

    /// Continues handing out generic ids of the analysis from `next`.
    pub fn set_generic_counter(&mut self, next: usize)
        ensures
            final(self).generics().counter() == next,
            final(self).generics().types() == old(self).generics().types(),
            final(self).generics().inferred_ids() == old(self).generics().inferred_ids(),
            final(self).generics().ids_per_file() == old(self).generics().ids_per_file(),
            final(self).generics().rank() == old(self).generics().rank(),
            final(self).wf() == old(self).wf(),
            final(self).grows(old(self)),
            final(self).errors() == old(self).errors(),
            final(self).symbol_tables() == old(self).symbol_tables(),
    {
        self.generic_types.set_counter(next);
        proof {
            lemma_extends_refl(old(self));
        }
    }

    /// Hands out generic ids of the analysis from zero again.
    pub fn reset_counter(&mut self)
        ensures
            final(self).generics().counter() == 0,
            final(self).wf() == old(self).wf(),
            final(self).grows(old(self)),
            final(self).errors() == old(self).errors(),
            final(self).symbol_tables() == old(self).symbol_tables(),
    {
        self.generic_types.reset_counter();
        proof {
            lemma_extends_refl(old(self));
        }
    }

    /// Narrows the generic id `id` of the analysis as
    /// [`GenericsMap::constrain_acyclic`] does.
    pub fn constrain_generic(&mut self, id: usize, constraint: DataType)
        requires
            old(self).wf(),
        ensures
            final(self).wf(),
            final(self).grows(old(self)),
            final(self).errors() == old(self).errors(),
            final(self).symbol_tables() == old(self).symbol_tables(),
            final(self).generics().inferred_ids() == old(self).generics().inferred_ids(),
            final(self).generics().ids_per_file() == old(self).generics().ids_per_file(),
            crate::generics::reaches(
                old(self).generics().types(),
                old(self).generics().rank(),
                constraint@,
                crate::generics::chain_end(old(self).generics().types(), old(self).generics().rank(), id),
            ) ==> final(self).generics().types() == old(self).generics().types(),
            !crate::generics::reaches(
                old(self).generics().types(),
                old(self).generics().rank(),
                constraint@,
                crate::generics::chain_end(old(self).generics().types(), old(self).generics().rank(), id),
            ) ==> final(self).generics().types() == crate::generics::constrained(
                old(self).generics().types(),
                old(self).generics().rank(),
                id,
                constraint@,
            ),
    {
        self.generic_types.constrain_acyclic(id, constraint);
        proof {
            lemma_extends_refl(old(self));
        }
    }

    /// Marks the generic id `id` of the analysis as inferred.
    pub fn mark_generic_inferred(&mut self, id: usize)
        requires
            old(self).wf(),
        ensures
            final(self).wf(),
            final(self).grows(old(self)),
            final(self).errors() == old(self).errors(),
            final(self).symbol_tables() == old(self).symbol_tables(),
            final(self).generics().inferred_ids() == old(self).generics().inferred_ids().insert(id),
    {
        self.generic_types.mark_as_inferred(id);
        proof {
            lemma_extends_refl(old(self));
        }
    }
}

} // verus!
