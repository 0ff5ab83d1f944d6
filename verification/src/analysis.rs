//! What the analysis records of a document: the symbols it defines and
//! refers to, the scopes of their definitions, and the contexts they
//! stand in.

use std::ops::RangeInclusive;

use vstd::prelude::*;
use vstd::std_specs::range::RangeInclusiveView;

use crate::files::{
    file_key, lemma_extends_refl, lemma_extends_trans, opt_info_view, scope_at, symbol_at,
    FileVersion, Files,
};
use crate::generics::{deref, join, join_strings, string_views, type_string, GenericsMap};
use crate::grammar::{compiler_flag_name, CommandModifier, CompilerFlag, Span};
use crate::name_map::NameMap;
use crate::paths::FileId;
use crate::range_maps::{insert_range, ScopeRanges, SymbolRanges};
use crate::types::{lemma_view_form, DataType, Ty};

verus! {

/// Where a symbol is: a version of a file and a range of byte offsets.
#[derive(Clone, Copy, Debug, PartialEq, Eq)]
pub struct SymbolLocation {
    pub file: (FileId, FileVersion),
    pub start: usize,
    pub end: usize,
}

impl View for SymbolLocation {
    type V = SymbolLocation;

    open spec fn view(&self) -> SymbolLocation {
        *self
    }
}

/// The file and version of a location, as plain numbers.
pub open spec fn location_file(loc: SymbolLocation) -> (usize, i32) {
    (loc.file.0.0, loc.file.1.0)
}

/// An argument of a function symbol.
#[derive(Debug, PartialEq, Eq)]
pub struct FunctionArgument {
    pub name: String,
    pub data_type: DataType,
    pub is_optional: bool,
    pub is_ref: bool,
}

/// The value of a [`FunctionArgument`].
pub struct ArgumentView {
    pub name: Seq<char>,
    pub data_type: Ty,
    pub is_optional: bool,
    pub is_ref: bool,
}

impl View for FunctionArgument {
    type V = ArgumentView;

    open spec fn view(&self) -> ArgumentView {
        ArgumentView {
            name: self.name@,
            data_type: self.data_type@,
            is_optional: self.is_optional,
            is_ref: self.is_ref,
        }
    }
}

impl FunctionArgument {
    /// A copy of `self`, part by part.
    pub fn copy(&self) -> (r: Self)
        ensures
            r@ == self@,
    {
        FunctionArgument {
            name: self.name.clone(),
            data_type: self.data_type.copy(),
            is_optional: self.is_optional,
            is_ref: self.is_ref,
        }
    }
}

impl Clone for FunctionArgument {
    fn clone(&self) -> (r: Self)
        ensures
            r@ == self@,
    {
        self.copy()
    }
}

/// The views of a list of arguments with their spans.
pub open spec fn argument_views(args: Seq<(FunctionArgument, Span)>) -> Seq<(ArgumentView, Span)> {
    args.map_values(|a: (FunctionArgument, Span)| (a.0@, a.1))
}

/// A copy of a list of arguments with their spans.
pub fn copy_arguments(args: &Vec<(FunctionArgument, Span)>) -> (r: Vec<(FunctionArgument, Span)>)
    ensures
        argument_views(r@) == argument_views(args@),
{
    let mut out: Vec<(FunctionArgument, Span)> = Vec::new();
    let mut i: usize = 0;
    while i < args.len()
        invariant
            i <= args.len(),
            out@.len() == i,
            forall|j: int|
                0 <= j < i ==> #[trigger] out@[j].0@ == args@[j].0@ && out@[j].1 == args@[j].1,
        decreases args.len() - i,
    {
        let arg = args[i].0.copy();
        let ghost prev = out@;
        out.push((arg, args[i].1));
        proof {
            assert forall|j: int| 0 <= j < i + 1 implies #[trigger] out@[j].0@ == args@[j].0@ && out@[j].1
                == args@[j].1 by {
                if j < i {
                    assert(out@[j] == prev[j]);
                }
            }
        }
        i += 1;
    }
    proof {
        assert(argument_views(out@) =~= argument_views(args@));
    }
    out
}

/// A function symbol: its arguments, whether it is public, its compiler
/// flags and its documentation.
#[derive(Debug, PartialEq, Eq)]
pub struct FunctionSymbol {
    pub arguments: Vec<(FunctionArgument, Span)>,
    pub is_public: bool,
    pub compiler_flags: Vec<CompilerFlag>,
    pub docs: Option<String>,
}

/// The value of a [`FunctionSymbol`].
pub struct FunctionSymbolView {
    pub arguments: Seq<(ArgumentView, Span)>,
    pub is_public: bool,
    pub compiler_flags: Seq<CompilerFlag>,
    pub docs: Option<Seq<char>>,
}

/// The view of an optional string.
pub open spec fn opt_string_view(s: Option<String>) -> Option<Seq<char>> {
    match s {
        Some(t) => Some(t@),
        None => None,
    }
}

impl View for FunctionSymbol {
    type V = FunctionSymbolView;

    open spec fn view(&self) -> FunctionSymbolView {
        FunctionSymbolView {
            arguments: argument_views(self.arguments@),
            is_public: self.is_public,
            compiler_flags: self.compiler_flags@,
            docs: opt_string_view(self.docs),
        }
    }
}

/// A copy of a list of items that are copied as they are.
pub fn copy_list<T: Copy>(xs: &Vec<T>) -> (r: Vec<T>)
    ensures
        r@ == xs@,
{
    let mut out: Vec<T> = Vec::new();
    let mut i: usize = 0;
    while i < xs.len()
        invariant
            i <= xs.len(),
            out@ == xs@.take(i as int),
        decreases xs.len() - i,
    {
        out.push(xs[i]);
        i += 1;
        proof {
            assert(out@ =~= xs@.take(i as int));
        }
    }
    proof {
        assert(xs@.take(i as int) =~= xs@);
    }
    out
}

/// A copy of an optional string.
pub fn copy_opt_string(s: &Option<String>) -> (r: Option<String>)
    ensures
        opt_string_view(r) == opt_string_view(*s),
{
    match s {
        Some(t) => Some(t.clone()),
        None => None,
    }
}

impl FunctionSymbol {
    /// A copy of `self`, part by part.
    pub fn copy(&self) -> (r: Self)
        ensures
            r@ == self@,
    {
        FunctionSymbol {
            arguments: copy_arguments(&self.arguments),
            is_public: self.is_public,
            compiler_flags: copy_list(&self.compiler_flags),
            docs: copy_opt_string(&self.docs),
        }
    }
}

impl Clone for FunctionSymbol {
    fn clone(&self) -> (r: Self)
        ensures
            r@ == self@,
    {
        self.copy()
    }
}

/// A variable symbol: whether it is a constant.
#[derive(Clone, Copy, Debug, PartialEq, Eq)]
pub struct VariableSymbol {
    pub is_const: bool,
}

/// What kind of symbol a symbol is.
#[derive(Debug, PartialEq, Eq)]
pub enum SymbolType {
    Function(FunctionSymbol),
    Variable(VariableSymbol),
    ImportPath,
}

/// The value of a [`SymbolType`].
pub enum SymbolTypeView {
    Function(FunctionSymbolView),
    Variable(VariableSymbol),
    ImportPath,
}

impl View for SymbolType {
    type V = SymbolTypeView;

    open spec fn view(&self) -> SymbolTypeView {
        match self {
            SymbolType::Function(f) => SymbolTypeView::Function(f@),
            SymbolType::Variable(v) => SymbolTypeView::Variable(*v),
            SymbolType::ImportPath => SymbolTypeView::ImportPath,
        }
    }
}

impl SymbolType {
    /// A copy of `self`, part by part.
    pub fn copy(&self) -> (r: Self)
        ensures
            r@ == self@,
    {
        match self {
            SymbolType::Function(f) => SymbolType::Function(f.copy()),
            SymbolType::Variable(v) => SymbolType::Variable(*v),
            SymbolType::ImportPath => SymbolType::ImportPath,
        }
    }
}

impl Clone for SymbolType {
    fn clone(&self) -> (r: Self)
        ensures
            r@ == self@,
    {
        self.copy()
    }
}

/// The names and public definitions that an import brings in.
#[derive(Debug, PartialEq, Eq)]
pub struct ImportContext {
    pub public_definitions: NameMap<SymbolLocation>,
    pub imported_symbols: Vec<String>,
}

/// The value of an [`ImportContext`].
pub struct ImportContextView {
    pub public_definitions: Map<Seq<char>, SymbolLocation>,
    pub imported_symbols: Seq<Seq<char>>,
}

/// The views of a list of strings.
pub open spec fn strings_view(ss: Seq<String>) -> Seq<Seq<char>> {
    ss.map_values(|s: String| s@)
}

/// A copy of a list of strings.
pub fn copy_strings(ss: &Vec<String>) -> (r: Vec<String>)
    ensures
        strings_view(r@) == strings_view(ss@),
{
    let mut out: Vec<String> = Vec::new();
    let mut i: usize = 0;
    while i < ss.len()
        invariant
            i <= ss.len(),
            out@.len() == i,
            forall|j: int| 0 <= j < i ==> #[trigger] out@[j]@ == ss@[j]@,
        decreases ss.len() - i,
    {
        out.push(ss[i].clone());
        i += 1;
    }
    proof {
        assert(strings_view(out@) =~= strings_view(ss@));
    }
    out
}

impl View for ImportContext {
    type V = ImportContextView;

    open spec fn view(&self) -> ImportContextView {
        ImportContextView {
            public_definitions: self.public_definitions@,
            imported_symbols: strings_view(self.imported_symbols@),
        }
    }
}

impl ImportContext {
    /// A copy of `self`, part by part.
    pub fn copy(&self) -> (r: Self)
        ensures
            r@ == self@,
    {
        ImportContext {
            public_definitions: self.public_definitions.copy(),
            imported_symbols: copy_strings(&self.imported_symbols),
        }
    }
}

impl Clone for ImportContext {
    fn clone(&self) -> (r: Self)
        ensures
            r@ == self@,
    {
        self.copy()
    }
}

/// The compiler flags of the function a symbol stands in.
#[derive(Debug, PartialEq, Eq)]
pub struct FunctionContext {
    pub compiler_flags: Vec<CompilerFlag>,
}

impl FunctionContext {
    /// A copy of `self`, part by part.
    pub fn copy(&self) -> (r: Self)
        ensures
            r.compiler_flags@ == self.compiler_flags@,
    {
        FunctionContext { compiler_flags: copy_list(&self.compiler_flags) }
    }
}

impl Clone for FunctionContext {
    fn clone(&self) -> (r: Self)
        ensures
            r.compiler_flags@ == self.compiler_flags@,
    {
        self.copy()
    }
}

/// The modifiers of the block a symbol stands in.
#[derive(Debug, PartialEq, Eq)]
pub struct BlockContext {
    pub modifiers: Vec<CommandModifier>,
}

impl BlockContext {
    /// A copy of `self`, part by part.
    pub fn copy(&self) -> (r: Self)
        ensures
            r.modifiers@ == self.modifiers@,
    {
        BlockContext { modifiers: copy_list(&self.modifiers) }
    }
}

impl Clone for BlockContext {
    fn clone(&self) -> (r: Self)
        ensures
            r.modifiers@ == self.modifiers@,
    {
        self.copy()
    }
}

/// A syntactic context that a symbol stands in.
#[derive(Debug, PartialEq, Eq)]
pub enum Context {
    Import(ImportContext),
    Function(FunctionContext),
    Block(BlockContext),
    Main,
    Loop,
    DocString(String),
}

/// The value of a [`Context`].
pub enum ContextView {
    Import(ImportContextView),
    Function(Seq<CompilerFlag>),
    Block(Seq<CommandModifier>),
    Main,
    Loop,
    DocString(Seq<char>),
}

impl View for Context {
    type V = ContextView;

    open spec fn view(&self) -> ContextView {
        match self {
            Context::Import(c) => ContextView::Import(c@),
            Context::Function(c) => ContextView::Function(c.compiler_flags@),
            Context::Block(c) => ContextView::Block(c.modifiers@),
            Context::Main => ContextView::Main,
            Context::Loop => ContextView::Loop,
            Context::DocString(s) => ContextView::DocString(s@),
        }
    }
}

impl Context {
    /// A copy of `self`, part by part.
    pub fn copy(&self) -> (r: Self)
        ensures
            r@ == self@,
    {
        match self {
            Context::Import(c) => Context::Import(c.copy()),
            Context::Function(c) => Context::Function(c.copy()),
            Context::Block(c) => Context::Block(c.copy()),
            Context::Main => Context::Main,
            Context::Loop => Context::Loop,
            Context::DocString(s) => Context::DocString(s.clone()),
        }
    }
}

impl Clone for Context {
    fn clone(&self) -> (r: Self)
        ensures
            r@ == self@,
    {
        self.copy()
    }
}

/// The views of a list of contexts.
pub open spec fn contexts_view(cs: Seq<Context>) -> Seq<ContextView> {
    cs.map_values(|c: Context| c@)
}

/// A copy of a list of contexts.
pub fn copy_contexts(cs: &[Context]) -> (r: Vec<Context>)
    ensures
        contexts_view(r@) == contexts_view(cs@),
{
    let mut out: Vec<Context> = Vec::new();
    let mut i: usize = 0;
    while i < cs.len()
        invariant
            i <= cs@.len(),
            out@.len() == i,
            forall|j: int| 0 <= j < i ==> #[trigger] out@[j]@ == cs@[j]@,
        decreases cs@.len() - i,
    {
        out.push(cs[i].copy());
        i += 1;
    }
    proof {
        assert(contexts_view(out@) =~= contexts_view(cs@));
    }
    out
}

/// Information about a symbol in the document.
#[derive(Debug, PartialEq, Eq)]
pub struct SymbolInfo {
    pub name: String,
    pub symbol_type: SymbolType,
    pub data_type: DataType,
    pub is_definition: bool,
    pub undefined: bool,
    pub span: Span,
    pub contexts: Vec<Context>,
}

/// The value of a [`SymbolInfo`].
pub struct SymbolInfoView {
    pub name: Seq<char>,
    pub symbol_type: SymbolTypeView,
    pub data_type: Ty,
    pub is_definition: bool,
    pub undefined: bool,
    pub span: Span,
    pub contexts: Seq<ContextView>,
}

impl View for SymbolInfo {
    type V = SymbolInfoView;

    open spec fn view(&self) -> SymbolInfoView {
        SymbolInfoView {
            name: self.name@,
            symbol_type: self.symbol_type@,
            data_type: self.data_type@,
            is_definition: self.is_definition,
            undefined: self.undefined,
            span: self.span,
            contexts: contexts_view(self.contexts@),
        }
    }
}

impl SymbolInfo {
    /// A copy of `self`, part by part.
    pub fn copy(&self) -> (r: Self)
        ensures
            r@ == self@,
    {
        SymbolInfo {
            name: self.name.clone(),
            symbol_type: self.symbol_type.copy(),
            data_type: self.data_type.copy(),
            is_definition: self.is_definition,
            undefined: self.undefined,
            span: self.span,
            contexts: copy_contexts(self.contexts.as_slice()),
        }
    }
}

impl Clone for SymbolInfo {
    fn clone(&self) -> (r: Self)
        ensures
            r@ == self@,
    {
        self.copy()
    }
}


/// `RangeInclusive::start`.
#[verifier::external_body]
fn range_start(r: &RangeInclusive<usize>) -> (s: usize)
    ensures
        s == r@.start,
{
    *r.start()
}

/// `RangeInclusive::end`.
#[verifier::external_body]
fn range_end(r: &RangeInclusive<usize>) -> (e: usize)
    ensures
        e == r@.end,
{
    *r.end()
}

/// `RangeInclusive::is_empty`: whether the range holds no offset, either
/// because it ends before it starts or because it was iterated to its end.
#[verifier::external_body]
fn range_is_empty(r: &RangeInclusive<usize>) -> (b: bool)
    ensures
        b == (r@.exhausted || r@.end < r@.start),
{
    r.is_empty()
}

/// Whether an inclusive range holds no offset.
pub open spec fn range_empty(r: RangeInclusiveView<usize>) -> bool {
    r.exhausted || r.end < r.start
}

/// A symbol table that contains all the symbols in a document.
///
/// `symbols` maps ranges of the document to the symbols found there,
/// `definitions` maps each name to the scopes in which each of its
/// definitions is the one in force, `references` lists the references
/// to each name, and `public_definitions` holds the definitions that
/// other documents can import.
#[derive(Debug)]
pub struct SymbolTable {
    pub symbols: SymbolRanges,
    pub definitions: NameMap<ScopeRanges>,
    pub references: NameMap<Vec<SymbolLocation>>,
    pub public_definitions: NameMap<SymbolLocation>,
    pub fun_call_arg_scope: SymbolRanges,
}

/// The value of a [`SymbolTable`].
pub struct SymbolTableView {
    pub symbols: Map<usize, SymbolInfoView>,
    pub definitions: Map<Seq<char>, Map<usize, SymbolLocation>>,
    pub references: Map<Seq<char>, Seq<SymbolLocation>>,
    pub public_definitions: Map<Seq<char>, SymbolLocation>,
    pub fun_call_arg_scope: Map<usize, SymbolInfoView>,
}

impl View for SymbolTable {
    type V = SymbolTableView;

    open spec fn view(&self) -> SymbolTableView {
        SymbolTableView {
            symbols: self.symbols@,
            definitions: self.definitions@,
            references: self.references@,
            public_definitions: self.public_definitions@,
            fun_call_arg_scope: self.fun_call_arg_scope@,
        }
    }
}

/// The table with nothing in it.
pub open spec fn empty_table() -> SymbolTableView {
    SymbolTableView {
        symbols: Map::empty(),
        definitions: Map::empty(),
        references: Map::empty(),
        public_definitions: Map::empty(),
        fun_call_arg_scope: Map::empty(),
    }
}

impl Default for SymbolTable {
    fn default() -> (r: Self)
        ensures
            r@ == empty_table(),
    {
        SymbolTable {
            symbols: SymbolRanges::new(),
            definitions: NameMap::new(),
            references: NameMap::new(),
            public_definitions: NameMap::new(),
            fun_call_arg_scope: SymbolRanges::new(),
        }
    }
}

/// The scopes of the definitions of `name` in a table; none where it has
/// none.
pub open spec fn scopes_of(t: SymbolTableView, name: Seq<char>) -> Map<usize, SymbolLocation> {
    if t.definitions.contains_key(name) {
        t.definitions[name]
    } else {
        Map::empty()
    }
}

/// `t` where the definition of `name` at `loc` is in force over the
/// offsets from `start` up to and including `end`, and, where it is
/// public, is the public definition of `name`.
pub open spec fn with_scope(
    t: SymbolTableView,
    name: Seq<char>,
    start: usize,
    end: usize,
    loc: SymbolLocation,
    is_public: bool,
) -> SymbolTableView {
    SymbolTableView {
        definitions: t.definitions.insert(name, insert_range(scopes_of(t, name), start, end, loc)),
        public_definitions: if is_public {
            t.public_definitions.insert(name, loc)
        } else {
            t.public_definitions
        },
        ..t
    }
}

/// `t` with `info` found over the offsets from `start` up to and
/// including `end`.
pub open spec fn with_symbol(t: SymbolTableView, start: usize, end: usize, info: SymbolInfoView) -> SymbolTableView {
    SymbolTableView { symbols: insert_range(t.symbols, start, end, info), ..t }
}

/// What [`insert_symbol_definition`] makes of a table: nothing changes
/// where the scope or the span of the symbol is empty; otherwise the
/// symbol is found over its span, and its definition at its span in
/// `file` is in force over the scope, and public where `is_public`.
pub open spec fn defined(
    t: SymbolTableView,
    info: SymbolInfoView,
    file: (FileId, FileVersion),
    scope: RangeInclusiveView<usize>,
    is_public: bool,
) -> SymbolTableView {
    if range_empty(scope) || info.span.start >= info.span.end {
        t
    } else {
        with_scope(
            with_symbol(t, info.span.start, info.span.end, info),
            info.name,
            scope.start,
            scope.end,
            SymbolLocation { file, start: info.span.start, end: info.span.end },
            is_public,
        )
    }
}

impl SymbolTable {
    /// Puts the definition at `loc` in force over the offsets from `start`
    /// up to and including `end`, and makes it the public definition of
    /// `name` where `is_public`.
    fn add_scope(&mut self, name: &String, start: usize, end: usize, loc: SymbolLocation, is_public: bool)
        requires
            start <= end,
        ensures
            final(self)@ == with_scope(old(self)@, name@, start, end, loc, is_public),
    {
        let mut scopes = match self.definitions.take(name) {
            Some(scopes) => scopes,
            None => ScopeRanges::new(),
        };
        scopes.insert(start, end, loc);
        self.definitions.insert(name.clone(), scopes);
        if is_public {
            self.public_definitions.insert(name.clone(), loc);
        }
        assert(self.definitions@ =~= old(self).definitions@.insert(
            name@,
            insert_range(scopes_of(old(self)@, name@), start, end, loc),
        ));
    }
}

/// Records the definition of a symbol: the symbol is found over its span,
/// and its definition there is in force over `definition_scope`, and is
/// the public definition of its name where `is_public`. Nothing changes
/// where the scope or the span is empty.
pub fn insert_symbol_definition(
    symbol_table: &mut SymbolTable,
    symbol_info: &SymbolInfo,
    file: (FileId, FileVersion),
    definition_scope: RangeInclusive<usize>,
    is_public: bool,
)
    ensures
        final(symbol_table)@ == defined(
            old(symbol_table)@,
            symbol_info@,
            file,
            definition_scope@,
            is_public,
        ),
{
    if range_is_empty(&definition_scope) {
        return;
    }
    if symbol_info.span.start >= symbol_info.span.end {
        return;
    }
    symbol_table.symbols.insert(symbol_info.span.start, symbol_info.span.end, symbol_info.copy());
    let definition_location = SymbolLocation {
        file,
        start: symbol_info.span.start,
        end: symbol_info.span.end,
    };
    symbol_table.add_scope(
        &symbol_info.name,
        range_start(&definition_scope),
        range_end(&definition_scope),
        definition_location,
        is_public,
    );
}

/// What [`import_symbol`] makes of a table: nothing changes where the
/// location or the given span is empty; otherwise the symbol is found over
/// the span where one is given, and the definition at `loc` is in force
/// over every offset, and public where `is_public`.
pub open spec fn imported(
    t: SymbolTableView,
    info: SymbolInfoView,
    span: Option<RangeInclusiveView<usize>>,
    loc: SymbolLocation,
    is_public: bool,
) -> SymbolTableView {
    if loc.end < loc.start {
        t
    } else {
        match span {
            Some(s) => if range_empty(s) {
                t
            } else {
                with_scope(
                    with_symbol(t, s.start, s.end, info),
                    info.name,
                    0,
                    usize::MAX,
                    loc,
                    is_public,
                )
            },
            None => with_scope(t, info.name, 0, usize::MAX, loc, is_public),
        }
    }
}

/// The view of an optional range.
pub open spec fn opt_range_view(r: Option<RangeInclusive<usize>>) -> Option<RangeInclusiveView<usize>> {
    match r {
        Some(s) => Some(s@),
        None => None,
    }
}

/// Records a symbol that an import brings in: the symbol is found over
/// `symbol_span` where one is given, and its definition at
/// `definition_location` is in force over the whole document, and public
/// where `is_public`. Nothing changes where the location or the given span
/// is empty.
pub fn import_symbol(
    symbol_table: &mut SymbolTable,
    symbol_info: &SymbolInfo,
    symbol_span: Option<RangeInclusive<usize>>,
    definition_location: &SymbolLocation,
    is_public: bool,
)
    ensures
        final(symbol_table)@ == imported(
            old(symbol_table)@,
            symbol_info@,
            opt_range_view(symbol_span),
            *definition_location,
            is_public,
        ),
{
    if definition_location.end < definition_location.start {
        return;
    }
    if let Some(symbol_span) = symbol_span {
        if range_is_empty(&symbol_span) {
            return;
        }
        symbol_table.symbols.insert(
            range_start(&symbol_span),
            range_end(&symbol_span),
            symbol_info.copy(),
        );
    }
    symbol_table.add_scope(&symbol_info.name, 0, usize::MAX, *definition_location, is_public);
}


/// The references to `name` recorded in a table; none where there are
/// none.
pub open spec fn references_of(t: SymbolTableView, name: Seq<char>) -> Seq<SymbolLocation> {
    if t.references.contains_key(name) {
        t.references[name]
    } else {
        Seq::empty()
    }
}

impl SymbolTable {
    /// Adds `loc` to the references to `name`.
    pub(crate) fn add_reference(&mut self, name: &String, loc: SymbolLocation)
        ensures
            final(self)@ == (SymbolTableView {
                references: old(self)@.references.insert(
                    name@,
                    references_of(old(self)@, name@).push(loc),
                ),
                ..old(self)@
            }),
    {
        let mut refs = match self.references.take(name) {
            Some(refs) => refs,
            None => Vec::new(),
        };
        refs.push(loc);
        self.references.insert(name.clone(), refs);
        assert(self.references@ =~= old(self)@.references.insert(
            name@,
            references_of(old(self)@, name@).push(loc),
        ));
    }
}

/// The symbol whose definition is in force for `symbol` at `position` of
/// version `file` of a file: the symbol found at the start of that
/// definition, in the table of the file that holds it.
pub open spec fn definition_info(
    tables: Map<(usize, i32), SymbolTableView>,
    symbol: Seq<char>,
    file: (usize, i32),
    position: usize,
) -> Option<SymbolInfoView> {
    if !tables.contains_key(file) {
        None
    } else {
        match scope_at(tables[file], symbol, position) {
            None => None,
            Some(loc) => if tables.contains_key(location_file(loc)) {
                symbol_at(tables[location_file(loc)], loc.start)
            } else {
                None
            },
        }
    }
}

/// The symbol whose definition is in force for `symbol` at `position` of
/// a version of a file, if any.
pub fn get_symbol_definition_info(
    files: &Files,
    symbol: &str,
    file: &(FileId, FileVersion),
    position: usize,
) -> (r: Option<SymbolInfo>)
    ensures
        opt_info_view(r) == definition_info(files.symbol_tables(), symbol@, file_key(*file), position),
{
    let name = String::from_str(symbol);
    let definition = match files.scope_at((file.0.0, file.1.0), &name, position) {
        Some(Some(definition)) => definition,
        _ => return None,
    };
    match files.symbol_at((definition.file.0.0, definition.file.1.0), definition.start) {
        Some(info) => info,
        None => None,
    }
}

/// The type recorded for a reference to a symbol of type `t`: an inferred
/// generic id resolved, and the members of a union resolved; any other
/// type as it is.
pub open spec fn reference_type(g: GenericsMap, t: Ty) -> Ty {
    match t {
        Ty::Generic(_) => deref(g.types(), g.rank(), g.inferred_ids(), t),
        Ty::Union(_) => deref(g.types(), g.rank(), g.inferred_ids(), t),
        _ => t,
    }
}

/// The arguments of a function, each with its type resolved.
pub open spec fn resolved_arguments(g: GenericsMap, args: Seq<(ArgumentView, Span)>) -> Seq<
    (ArgumentView, Span),
> {
    args.map_values(
        |a: (ArgumentView, Span)|
            (
                ArgumentView {
                    data_type: deref(g.types(), g.rank(), g.inferred_ids(), a.0.data_type),
                    ..a.0
                },
                a.1,
            ),
    )
}

/// The kind recorded for a reference to a symbol of kind `st`: a function
/// with the types of its arguments resolved; any other kind as it is.
pub open spec fn reference_symbol_type(g: GenericsMap, st: SymbolTypeView) -> SymbolTypeView {
    match st {
        SymbolTypeView::Function(f) => SymbolTypeView::Function(
            FunctionSymbolView { arguments: resolved_arguments(g, f.arguments), ..f },
        ),
        _ => st,
    }
}

/// What a reference to `name` over `start..=end` records: where its
/// definition is known, its kind and type as [`reference_symbol_type`] and
/// [`reference_type`] say; otherwise an undefined variable of type `Null`.
pub open spec fn reference_info(
    g: GenericsMap,
    definition: Option<SymbolInfoView>,
    name: Seq<char>,
    start: usize,
    end: usize,
    contexts: Seq<ContextView>,
) -> SymbolInfoView {
    match definition {
        Some(d) => SymbolInfoView {
            name,
            symbol_type: reference_symbol_type(g, d.symbol_type),
            data_type: reference_type(g, d.data_type),
            is_definition: false,
            undefined: false,
            span: Span { start, end },
            contexts,
        },
        None => SymbolInfoView {
            name,
            symbol_type: SymbolTypeView::Variable(VariableSymbol { is_const: false }),
            data_type: Ty::Null,
            is_definition: false,
            undefined: true,
            span: Span { start, end },
            contexts,
        },
    }
}

/// The message reported for a reference to an undefined `name`.
pub open spec fn undefined_message(name: Seq<char>) -> Seq<char> {
    "\""@ + name + "\" is not defined"@
}

/// What a reference to `name` at `loc` makes of the table of its file:
/// the reference is found over its span and is added to the references
/// to `name`.
pub open spec fn referenced(t: SymbolTableView, info: SymbolInfoView, name: Seq<char>, loc: SymbolLocation) -> SymbolTableView {
    let u = with_symbol(t, loc.start, loc.end, info);
    SymbolTableView {
        references: u.references.insert(name, references_of(u, name).push(loc)),
        ..u
    }
}

/// `t` with `info` found over the offsets from `start` up to and
/// including `end`, and with `loc` added to the references to `name`.
pub open spec fn called(
    t: SymbolTableView,
    start: usize,
    end: usize,
    info: SymbolInfoView,
    name: Seq<char>,
    loc: SymbolLocation,
) -> SymbolTableView {
    let u = with_symbol(t, start, end, info);
    SymbolTableView {
        references: u.references.insert(name, references_of(u, name).push(loc)),
        ..u
    }
}

/// The type recorded for a reference to a symbol of type `t`.
fn reference_data_type(g: &GenericsMap, t: &DataType) -> (r: DataType)
    requires
        g.wf(),
    ensures
        r@ == reference_type(*g, t@),
{
    proof {
        lemma_view_form(*t);
    }
    match t {
        DataType::Generic(id) => {
            if g.is_inferred(*id) {
                g.get_recursive(*id)
            } else {
                t.copy()
            }
        },
        DataType::Union(_) => g.deref_type(t),
        _ => t.copy(),
    }
}

/// The kind recorded for a reference to a symbol of kind `st`.
fn reference_kind(g: &GenericsMap, st: &SymbolType) -> (r: SymbolType)
    requires
        g.wf(),
    ensures
        r@ == reference_symbol_type(*g, st@),
{
    match st {
        SymbolType::Function(f) => {
            let mut args: Vec<(FunctionArgument, Span)> = Vec::new();
            let mut i: usize = 0;
            while i < f.arguments.len()
                invariant
                    g.wf(),
                    i <= f.arguments.len(),
                    args@.len() == i,
                    forall|j: int|
                        0 <= j < i ==> (#[trigger] args@[j].0@, args@[j].1) == resolved_arguments(
                            *g,
                            argument_views(f.arguments@),
                        )[j],
                decreases f.arguments.len() - i,
            {
                let (arg, span) = (&f.arguments[i].0, f.arguments[i].1);
                let resolved = FunctionArgument {
                    name: arg.name.clone(),
                    data_type: g.deref_type(&arg.data_type),
                    is_optional: arg.is_optional,
                    is_ref: arg.is_ref,
                };
                let ghost prev = args@;
                args.push((resolved, span));
                proof {
                    assert forall|j: int| 0 <= j < i implies (#[trigger] args@[j].0@, args@[j].1)
                        == resolved_arguments(*g, argument_views(f.arguments@))[j] by {
                        assert(args@[j] == prev[j]);
                    }
                }
                i += 1;
            }
            proof {
                assert(argument_views(args@) =~= resolved_arguments(*g, argument_views(f.arguments@)));
            }
            SymbolType::Function(
                FunctionSymbol {
                    arguments: args,
                    is_public: f.is_public,
                    compiler_flags: copy_list(&f.compiler_flags),
                    docs: copy_opt_string(&f.docs),
                },
            )
        },
        _ => st.copy(),
    }
}

/// What recording a reference to `symbol` at `loc`, in the contexts `cs`,
/// does to the files: an inverted span changes nothing; otherwise a name
/// with no definition in scope is reported as not defined over the span,
/// and where the file's version has a symbol table, the reference is
/// recorded in it as [`referenced`] says, with what [`reference_info`]
/// makes of the definition.
pub open spec fn reference_recorded(
    before: Files,
    after: Files,
    g: GenericsMap,
    symbol: Seq<char>,
    loc: SymbolLocation,
    cs: Seq<ContextView>,
) -> bool {
    let k = location_file(loc);
    let definition = definition_info(before.symbol_tables(), symbol, k, loc.start);
    if loc.end < loc.start {
        after.symbol_tables() == before.symbol_tables() && after.errors() == before.errors()
    } else {
        &&& after.errors() == (if definition is None {
            before.errors().insert(
                k,
                before.errors_of(k).push((undefined_message(symbol), Span { start: loc.start, end: loc.end })),
            )
        } else {
            before.errors()
        })
        &&& after.symbol_tables() == (if before.symbol_tables().contains_key(k) {
            before.symbol_tables().insert(
                k,
                referenced(
                    before.symbol_tables()[k],
                    reference_info(g, definition, symbol, loc.start, loc.end, cs),
                    symbol,
                    loc,
                ),
            )
        } else {
            before.symbol_tables()
        })
    }
}

/// Records a reference to `symbol` at `reference_location`: the symbol
/// found over its span in the table of its file, as [`reference_info`]
/// says of its definition, and the location among the references to
/// `symbol`. Where no definition is in force there, the error
/// [`undefined_message`] is reported over the span. Nothing is recorded in
/// a table where the file has none, and nothing at all where the span
/// ends before it starts.
pub fn insert_symbol_reference(
    symbol: &str,
    files: &mut Files,
    reference_location: &SymbolLocation,
    scoped_generics: &GenericsMap,
    contexts: &[Context],
)
    requires
        scoped_generics.wf(),
    ensures
        reference_recorded(
            *old(files),
            *final(files),
            *scoped_generics,
            symbol@,
            *reference_location,
            contexts_view(contexts@),
        ),
        final(files).paths() == old(files).paths(),
        final(files).versions() == old(files).versions(),
        final(files).dependencies() == old(files).dependencies(),
        final(files).generics() == old(files).generics(),
        final(files).extends(old(files)),
{
    let start = reference_location.start;
    let end = reference_location.end;
    if end < start {
        proof {
            assert(old(files).symbol_tables() == files.symbol_tables());
            assert(reference_recorded(*old(files), *files, *scoped_generics, symbol@, *reference_location, contexts_view(contexts@)));
        }
        return;
    }
    let k = (reference_location.file.0.0, reference_location.file.1.0);
    let definition = get_symbol_definition_info(files, symbol, &reference_location.file, start);
    let info = match definition {
        Some(d) => SymbolInfo {
            name: String::from_str(symbol),
            symbol_type: reference_kind(scoped_generics, &d.symbol_type),
            data_type: reference_data_type(scoped_generics, &d.data_type),
            is_definition: false,
            undefined: false,
            span: Span { start, end },
            contexts: copy_contexts(contexts),
        },
        None => {
            let mut msg = String::from_str("\"");
            msg.append(symbol);
            msg.append("\" is not defined");
            files.report_error(&reference_location.file, msg.as_str(), Span { start, end });
            SymbolInfo {
                name: String::from_str(symbol),
                symbol_type: SymbolType::Variable(VariableSymbol { is_const: false }),
                data_type: DataType::Null,
                is_definition: false,
                undefined: true,
                span: Span { start, end },
                contexts: copy_contexts(contexts),
            }
        },
    };
    let ghost mid = *files;
    let mut table = match files.take_symbol_table(k) {
        Some(table) => table,
        None => {
            proof {
                lemma_extends_refl(files);
                lemma_extends_trans(old(files), &mid, files);
                let loc = *reference_location;
                let def = definition_info(old(files).symbol_tables(), symbol@, location_file(loc), loc.start);
                assert(location_file(loc) == k);
                assert(opt_info_view(definition) == def);
                assert(!old(files).symbol_tables().contains_key(k));
                assert(files.symbol_tables() == old(files).symbol_tables());
            }
            return;
        },
    };
    table.symbols.insert(start, end, info);
    table.add_reference(&String::from_str(symbol), *reference_location);
    files.put_symbol_table(k, table);
    proof {
        assert(files.extends(&mid));
        lemma_extends_trans(old(files), &mid, files);
        let loc = *reference_location;
        let def = definition_info(old(files).symbol_tables(), symbol@, location_file(loc), loc.start);
        assert(location_file(loc) == k);
        assert(opt_info_view(definition) == def);
        assert(files.errors() == (if def is None {
            old(files).errors().insert(
                k,
                old(files).errors_of(k).push((undefined_message(symbol@), Span { start: loc.start, end: loc.end })),
            )
        } else {
            old(files).errors()
        }));
        assert(old(files).symbol_tables().contains_key(k));
        assert(files.symbol_tables() == old(files).symbol_tables().insert(
                k,
                referenced(
                    old(files).symbol_tables()[k],
                    reference_info(*scoped_generics, def, symbol@, loc.start, loc.end, contexts_view(contexts@)),
                    symbol@,
                    loc,
                ),
            ));
    }
}


/// How an argument is written in the signature of a function: `ref `
/// where it is passed by reference, its name, `?` where it is optional,
/// `: ` and its type.
pub open spec fn argument_text(g: GenericsMap, a: ArgumentView) -> Seq<char> {
    (if a.is_ref {
        "ref "@
    } else {
        Seq::empty()
    }) + a.name + (if a.is_optional {
        "?"@
    } else {
        Seq::empty()
    }) + ": "@ + type_string(g.types(), g.rank(), a.data_type)
}

/// How the arguments of a function are written, with `, ` between them.
pub open spec fn arguments_text(g: GenericsMap, args: Seq<(ArgumentView, Span)>) -> Seq<char> {
    join(args.map_values(|a: (ArgumentView, Span)| argument_text(g, a.0)), ", "@)
}

/// The compiler flags of a function, one per line.
pub open spec fn flags_text(flags: Seq<CompilerFlag>) -> Seq<char> {
    join(flags.map_values(|f: CompilerFlag| compiler_flag_name(f)), "\n"@)
}

/// How a symbol is shown: a function as its signature, with its compiler
/// flags on the lines before it; an import path as `import "path"`; a
/// variable as its name, `: ` and its type.
pub open spec fn symbol_text(g: GenericsMap, info: SymbolInfoView) -> Seq<char> {
    match info.symbol_type {
        SymbolTypeView::Function(f) => (if flags_text(f.compiler_flags).len() == 0 {
            Seq::empty()
        } else {
            flags_text(f.compiler_flags) + "\n"@
        }) + (if f.is_public {
            "pub "@
        } else {
            Seq::empty()
        }) + "fun "@ + info.name + "("@ + arguments_text(g, f.arguments) + "): "@ + type_string(
            g.types(),
            g.rank(),
            info.data_type,
        ),
        SymbolTypeView::ImportPath => "import \""@ + info.name + "\""@,
        SymbolTypeView::Variable(_) => info.name + ": "@ + type_string(
            g.types(),
            g.rank(),
            info.data_type,
        ),
    }
}

/// The text of an argument, as [`argument_text`] says.
fn argument_string(g: &GenericsMap, a: &FunctionArgument) -> (r: String)
    requires
        g.wf(),
    ensures
        r@ == argument_text(*g, a@),
{
    let mut out = String::new();
    if a.is_ref {
        out.append("ref ");
    }
    out.append(a.name.as_str());
    if a.is_optional {
        out.append("?");
    }
    out.append(": ");
    let ty = a.data_type.to_string(g);
    out.append(ty.as_str());
    proof {
        reveal_strlit("");
    }
    assert(out@ =~= argument_text(*g, a@));
    out
}

impl SymbolInfo {
    /// How the symbol is shown, as [`symbol_text`] says.
    pub fn to_string(&self, generics_map: &GenericsMap) -> (r: String)
        requires
            generics_map.wf(),
        ensures
            r@ == symbol_text(*generics_map, self@),
    {
        match &self.symbol_type {
            SymbolType::Function(f) => {
                let mut flags: Vec<String> = Vec::new();
                let mut i: usize = 0;
                while i < f.compiler_flags.len()
                    invariant
                        i <= f.compiler_flags.len(),
                        flags@.len() == i,
                        forall|j: int|
                            0 <= j < i ==> #[trigger] flags@[j]@ == compiler_flag_name(
                                f.compiler_flags@[j],
                            ),
                    decreases f.compiler_flags.len() - i,
                {
                    flags.push(String::from_str(f.compiler_flags[i].name()));
                    i += 1;
                }
                assert(string_views(flags@) =~= f.compiler_flags@.map_values(
                    |c: CompilerFlag| compiler_flag_name(c),
                ));
                let flags_str = join_strings(&flags, "\n");
                let mut args: Vec<String> = Vec::new();
                let mut j: usize = 0;
                while j < f.arguments.len()
                    invariant
                        generics_map.wf(),
                        j <= f.arguments.len(),
                        args@.len() == j,
                        forall|m: int|
                            0 <= m < j ==> #[trigger] args@[m]@ == argument_text(
                                *generics_map,
                                f.arguments@[m].0@,
                            ),
                    decreases f.arguments.len() - j,
                {
                    args.push(argument_string(generics_map, &f.arguments[j].0));
                    j += 1;
                }
                assert(string_views(args@) =~= argument_views(f.arguments@).map_values(
                    |a: (ArgumentView, Span)| argument_text(*generics_map, a.0),
                ));
                let args_str = join_strings(&args, ", ");
                let mut out = String::new();
                if flags_str.as_str().unicode_len() != 0 {
                    out.append(flags_str.as_str());
                    out.append("\n");
                }
                if f.is_public {
                    out.append("pub ");
                }
                out.append("fun ");
                out.append(self.name.as_str());
                out.append("(");
                out.append(args_str.as_str());
                out.append("): ");
                let ty = self.data_type.to_string(generics_map);
                out.append(ty.as_str());
                assert(out@ =~= symbol_text(*generics_map, self@));
                out
            },
            SymbolType::ImportPath => {
                let mut out = String::from_str("import \"");
                out.append(self.name.as_str());
                out.append("\"");
                out
            },
            SymbolType::Variable(_) => {
                let mut out = self.name.clone();
                out.append(": ");
                let ty = self.data_type.to_string(generics_map);
                out.append(ty.as_str());
                out
            },
        }
    }
}


/// A definition, once recorded, is the one in force for its name at every
/// offset of its scope, and the symbol found at the start of its span is
/// the defined symbol: a lookup there gives back what was recorded.
pub proof fn law_definition_found_in_scope(
    t: SymbolTableView,
    info: SymbolInfoView,
    file: (FileId, FileVersion),
    scope: RangeInclusiveView<usize>,
    is_public: bool,
    position: usize,
)
    requires
        !range_empty(scope),
        info.span.start < info.span.end,
        scope.start <= position <= scope.end,
    ensures
        ({
            let after = defined(t, info, file, scope, is_public);
            let loc = SymbolLocation { file, start: info.span.start, end: info.span.end };
            &&& scope_at(after, info.name, position) == Some(loc)
            &&& symbol_at(after, loc.start) == Some(info)
            &&& definition_info(
                map![file_key(file) => after],
                info.name,
                file_key(file),
                position,
            ) == Some(info)
        }),
{
    let after = defined(t, info, file, scope, is_public);
    let loc = SymbolLocation { file, start: info.span.start, end: info.span.end };
    assert(location_file(loc) == file_key(file));
    assert(map![file_key(file) => after].contains_key(file_key(file)));
}

/// A definition that is recorded as public is the public definition of
/// its name, and one that is not leaves the public definitions as they
/// were.
pub proof fn law_public_definition(
    t: SymbolTableView,
    info: SymbolInfoView,
    file: (FileId, FileVersion),
    scope: RangeInclusiveView<usize>,
    is_public: bool,
)
    requires
        !range_empty(scope),
        info.span.start < info.span.end,
    ensures
        is_public ==> defined(t, info, file, scope, is_public).public_definitions[info.name]
            == (SymbolLocation { file, start: info.span.start, end: info.span.end }),
        !is_public ==> defined(t, info, file, scope, is_public).public_definitions
            == t.public_definitions,
{
}

/// Outside its scope, a definition leaves the definitions of its name as
/// they were.
pub proof fn law_definition_scope_is_local(
    t: SymbolTableView,
    info: SymbolInfoView,
    file: (FileId, FileVersion),
    scope: RangeInclusiveView<usize>,
    is_public: bool,
    position: usize,
)
    requires
        position < scope.start || scope.end < position,
    ensures
        scope_at(defined(t, info, file, scope, is_public), info.name, position) == scope_at(
            t,
            info.name,
            position,
        ),
{
}

/// A reference, once recorded, is the last of the references to its
/// name in the table of its file.
pub proof fn law_reference_is_recorded(
    t: SymbolTableView,
    info: SymbolInfoView,
    name: Seq<char>,
    loc: SymbolLocation,
)
    ensures
        references_of(referenced(t, info, name, loc), name).last() == loc,
        references_of(referenced(t, info, name, loc), name).drop_last() == references_of(t, name),
        symbol_at(referenced(t, info, name, loc), loc.start) == (if loc.start <= loc.end {
            Some(info)
        } else {
            symbol_at(t, loc.start)
        }),
{
    assert(references_of(referenced(t, info, name, loc), name).drop_last() =~= references_of(
        t,
        name,
    ));
}

} // verus!
