//! What the editor features answer from a symbol table: where a symbol is
//! defined, how it is described on hover, which parameter of a call the
//! cursor is on, and what a completion offers.

use vstd::prelude::*;

use crate::analysis::{
    argument_views, definition_info, get_symbol_definition_info, location_file, scopes_of,
    strings_view, symbol_text, ArgumentView, Context, ContextView, FunctionArgument,
    ImportContext, ImportContextView, SymbolInfo, SymbolInfoView, SymbolLocation, SymbolTable,
    SymbolTableView, SymbolType, SymbolTypeView,
};
use crate::analyze::decimal;
use crate::document::{offset_at, position_to_offset, rope_text, Position};
use crate::files::{file_key, opt_info_view, symbol_at, FileVersion, Files};
use crate::generics::{contains_string, join, join_strings, string_views, type_string, GenericsMap};
use crate::grammar::Span;
use crate::name_map::names_of;
use crate::paths::FileId;

verus! {

/// The definition that a go-to-definition request at `offset` leads to:
/// the one in force for the symbol found there, where that symbol is an
/// import path or a defined reference; none for a definition, an undefined
/// symbol, or an offset where no symbol is found.
pub open spec fn definition_target(t: SymbolTableView, offset: usize) -> Option<SymbolLocation> {
    if !t.symbols.contains_key(offset) {
        None
    } else {
        let info = t.symbols[offset];
        if !(info.symbol_type is ImportPath) && (info.undefined || info.is_definition) {
            None
        } else if scopes_of(t, info.name).contains_key(offset) && t.definitions.contains_key(
            info.name,
        ) {
            Some(scopes_of(t, info.name)[offset])
        } else {
            None
        }
    }
}

/// Where a go-to-definition request at `offset` leads, as
/// [`definition_target`] says, with the symbol found at `offset`.
pub fn find_definition(table: &SymbolTable, offset: usize) -> (r: Option<(SymbolInfo, SymbolLocation)>)
    ensures
        match r {
            Some((info, loc)) => definition_target(table@, offset) == Some(loc)
                && table@.symbols.contains_key(offset) && info@ == table@.symbols[offset],
            None => definition_target(table@, offset) is None,
        },
{
    let info = match table.symbols.get(offset) {
        Some(info) => info,
        None => return None,
    };
    let is_import = match &info.symbol_type {
        SymbolType::ImportPath => true,
        _ => false,
    };
    if !is_import && (info.undefined || info.is_definition) {
        return None;
    }
    match table.definitions.get(&info.name) {
        Some(scopes) => match scopes.get(offset) {
            Some(loc) => Some((info, loc)),
            None => None,
        },
        None => None,
    }
}

/// The documentation of a symbol, if it is a function that has some.
pub open spec fn docs_of(info: SymbolInfoView) -> Option<Seq<char>> {
    match info.symbol_type {
        SymbolTypeView::Function(f) => f.docs,
        _ => None,
    }
}

/// The hover text of a symbol: nothing for an undefined one; otherwise its
/// documentation on a line of its own, where it has some, then its
/// description in an `amber` code block.
pub open spec fn hover_markdown(g: GenericsMap, info: SymbolInfoView) -> Option<Seq<char>> {
    if info.undefined {
        None
    } else {
        Some(
            match docs_of(info) {
                Some(d) => d + "\n"@,
                None => Seq::empty(),
            } + "```amber\n"@ + symbol_text(g, info) + "\n```"@,
        )
    }
}

/// The hover text of a symbol, as [`hover_markdown`] says.
pub fn hover_text(info: &SymbolInfo, generics_map: &GenericsMap) -> (r: Option<String>)
    requires
        generics_map.wf(),
    ensures
        match r {
            Some(s) => hover_markdown(*generics_map, info@) == Some(s@),
            None => hover_markdown(*generics_map, info@) is None,
        },
{
    if info.undefined {
        return None;
    }
    let mut out = String::new();
    if let SymbolType::Function(f) = &info.symbol_type {
        if let Some(docs) = &f.docs {
            out.append(docs.as_str());
            out.append("\n");
        }
    }
    out.append("```amber\n");
    let text = info.to_string(generics_map);
    out.append(text.as_str());
    out.append("\n```");
    proof {
        reveal_strlit("");
    }
    assert(out@ =~= hover_markdown(*generics_map, info@)->0);
    Some(out)
}

/// The parameter that the cursor at `offset` is on: the last argument
/// whose span holds `offset`, the first where none does.
pub open spec fn active_index(args: Seq<(ArgumentView, Span)>, offset: usize) -> nat
    decreases args.len(),
{
    if args.len() == 0 {
        0
    } else if args.last().1.start <= offset && offset <= args.last().1.end {
        (args.len() - 1) as nat
    } else {
        active_index(args.drop_last(), offset)
    }
}

/// Whether the span holds `offset`, its start and its end included.
pub open spec fn span_holds(span: Span, offset: usize) -> bool {
    span.start <= offset && offset <= span.end
}

/// The cursor is on the last argument whose span holds it, the end of the
/// span included: where the span of argument `i` holds `offset` and no
/// later argument's span does, the active parameter is `i`; where no span
/// holds it, the first.
pub proof fn law_active_parameter_holds_offset(args: Seq<(ArgumentView, Span)>, offset: usize)
    ensures
        forall|i: int|
            0 <= i < args.len() && #[trigger] span_holds(args[i].1, offset) && (forall|j: int|
                i < j < args.len() ==> !span_holds(#[trigger] args[j].1, offset)) ==> active_index(args, offset)
                == i,
        (forall|j: int| 0 <= j < args.len() ==> !span_holds(#[trigger] args[j].1, offset)) ==> active_index(
            args,
            offset,
        ) == 0,
    decreases args.len(),
{
    if args.len() > 0 {
        let rest = args.drop_last();
        law_active_parameter_holds_offset(rest, offset);
        assert forall|i: int|
            0 <= i < args.len() && #[trigger] span_holds(args[i].1, offset) && (forall|j: int|
                i < j < args.len() ==> !span_holds(#[trigger] args[j].1, offset)) implies active_index(
            args,
            offset,
        ) == i by {
            if i < args.len() - 1 {
                assert(!span_holds(args[args.len() - 1].1, offset));
                assert(rest[i] == args[i]);
                assert forall|j: int| i < j < rest.len() implies !span_holds(#[trigger] rest[j].1, offset) by {
                    assert(rest[j] == args[j]);
                }
            }
        }
        if forall|j: int| 0 <= j < args.len() ==> !span_holds(#[trigger] args[j].1, offset) {
            assert(!span_holds(args[args.len() - 1].1, offset));
            assert forall|j: int| 0 <= j < rest.len() implies !span_holds(#[trigger] rest[j].1, offset) by {
                assert(rest[j] == args[j]);
            }
        }
    }
}

/// The parameter that the cursor at `offset` is on, as [`active_index`]
/// says: the last argument whose span holds `offset`, the end of the span
/// included, or the first where none does.
pub fn active_parameter(arguments: &Vec<(FunctionArgument, Span)>, offset: usize) -> (r: usize)
    ensures
        r == active_index(argument_views(arguments@), offset),
        forall|i: int|
            0 <= i < arguments@.len() && #[trigger] span_holds(arguments@[i].1, offset) && (forall|j: int|
                i < j < arguments@.len() ==> !span_holds(#[trigger] arguments@[j].1, offset)) ==> r == i,
        (forall|j: int| 0 <= j < arguments@.len() ==> !span_holds(#[trigger] arguments@[j].1, offset)) ==> r
            == 0,
{
    let ghost args = argument_views(arguments@);
    let mut active: usize = 0;
    let mut i: usize = 0;
    while i < arguments.len()
        invariant
            i <= arguments.len(),
            args == argument_views(arguments@),
            active == active_index(args.take(i as int), offset),
        decreases arguments.len() - i,
    {
        proof {
            assert(args.take(i + 1).drop_last() =~= args.take(i as int));
            assert(args.take(i + 1).last() == args[i as int]);
        }
        let span = arguments[i].1;
        if offset >= span.start && offset <= span.end {
            active = i;
        }
        i += 1;
    }
    proof {
        assert(args.take(i as int) =~= args);
        law_active_parameter_holds_offset(args, offset);
        assert forall|j: int| 0 <= j < arguments@.len() implies #[trigger] span_holds(arguments@[j].1, offset)
            == span_holds(args[j].1, offset) by {}
        assert forall|i: int|
            0 <= i < arguments@.len() && #[trigger] span_holds(arguments@[i].1, offset) && (forall|j: int|
                i < j < arguments@.len() ==> !span_holds(#[trigger] arguments@[j].1, offset)) implies active == i by {
            assert(span_holds(args[i].1, offset));
            assert forall|j: int| i < j < args.len() implies !span_holds(#[trigger] args[j].1, offset) by {
                assert(span_holds(arguments@[j].1, offset) == span_holds(args[j].1, offset));
            }
        }
        if forall|j: int| 0 <= j < arguments@.len() ==> !span_holds(#[trigger] arguments@[j].1, offset) {
            assert forall|j: int| 0 <= j < args.len() implies !span_holds(#[trigger] args[j].1, offset) by {
                assert(span_holds(arguments@[j].1, offset) == span_holds(args[j].1, offset));
            }
        }
    }
    active
}

/// How a parameter is labelled in a signature help: its name, `: ` and
/// its type.
pub open spec fn parameter_label(g: GenericsMap, a: ArgumentView) -> Seq<char> {
    a.name + ": "@ + type_string(g.types(), g.rank(), a.data_type)
}

/// The labels of the parameters of a function, in order.
pub fn parameter_labels(arguments: &Vec<(FunctionArgument, Span)>, generics_map: &GenericsMap) -> (r: Vec<String>)
    requires
        generics_map.wf(),
    ensures
        r@.len() == arguments@.len(),
        forall|i: int|
            0 <= i < r@.len() ==> #[trigger] r@[i]@ == parameter_label(
                *generics_map,
                arguments@[i].0@,
            ),
{
    let mut out: Vec<String> = Vec::new();
    let mut i: usize = 0;
    while i < arguments.len()
        invariant
            generics_map.wf(),
            i <= arguments.len(),
            out@.len() == i,
            forall|j: int|
                0 <= j < i ==> #[trigger] out@[j]@ == parameter_label(
                    *generics_map,
                    arguments@[j].0@,
                ),
        decreases arguments.len() - i,
    {
        let arg = &arguments[i].0;
        let mut label = arg.name.clone();
        label.append(": ");
        let ty = arg.data_type.to_string(generics_map);
        label.append(ty.as_str());
        out.push(label);
        i += 1;
    }
    out
}

/// The placeholder of the argument at position `i` of a completed call:
/// `${n:name}`, where `n` counts from one.
pub open spec fn placeholder(i: nat, name: Seq<char>) -> Seq<char> {
    "${"@ + decimal(i + 1) + ":"@ + name + "}"@
}

/// How a completed call of a function is written: its name, then the
/// placeholders of its arguments in parentheses, with `, ` between them.
pub open spec fn call_snippet(name: Seq<char>, args: Seq<(ArgumentView, Span)>) -> Seq<char> {
    name + "("@ + join(
        Seq::new(args.len(), |i: int| placeholder(i as nat, args[i].0.name)),
        ", "@,
    ) + ")"@
}

/// How a completed call of a function is written, as [`call_snippet`]
/// says.
pub fn completion_snippet(name: &String, arguments: &Vec<(FunctionArgument, Span)>) -> (r: String)
    ensures
        r@ == call_snippet(name@, argument_views(arguments@)),
{
    let ghost args = argument_views(arguments@);
    let mut parts: Vec<String> = Vec::new();
    let mut i: usize = 0;
    while i < arguments.len()
        invariant
            i <= arguments.len(),
            args == argument_views(arguments@),
            parts@.len() == i,
            forall|j: int|
                0 <= j < i ==> #[trigger] parts@[j]@ == placeholder(j as nat, args[j].0.name),
        decreases arguments.len() - i,
    {
        let mut part = String::from_str("${");
        let n = crate::analyze::decimal_string(i + 1);
        part.append(n.as_str());
        part.append(":");
        part.append(arguments[i].0.name.as_str());
        part.append("}");
        parts.push(part);
        i += 1;
    }
    assert(string_views(parts@) =~= Seq::new(
        args.len(),
        |j: int| placeholder(j as nat, args[j].0.name),
    ));
    let joined = join_strings(&parts, ", ");
    let mut out = name.clone();
    out.append("(");
    out.append(joined.as_str());
    out.append(")");
    out
}

/// What kind of item a completion offers.
#[derive(Clone, Copy, Debug, PartialEq, Eq)]
pub enum CompletionKind {
    Function,
    Variable,
}

/// An item that a completion offers: its label and kind; for a function,
/// the text that is inserted and its description; for a variable, its
/// type.
#[derive(Debug, PartialEq, Eq)]
pub struct CompletionEntry {
    pub label: String,
    pub kind: CompletionKind,
    pub insert_text: Option<String>,
    pub detail: Option<String>,
    pub description: Option<String>,
}

/// The value of a [`CompletionEntry`].
pub struct CompletionEntryView {
    pub label: Seq<char>,
    pub kind: CompletionKind,
    pub insert_text: Option<Seq<char>>,
    pub detail: Option<Seq<char>>,
    pub description: Option<Seq<char>>,
}

impl View for CompletionEntry {
    type V = CompletionEntryView;

    open spec fn view(&self) -> CompletionEntryView {
        CompletionEntryView {
            label: self.label@,
            kind: self.kind,
            insert_text: crate::analysis::opt_string_view(self.insert_text),
            detail: crate::analysis::opt_string_view(self.detail),
            description: crate::analysis::opt_string_view(self.description),
        }
    }
}

/// The views of a list of completion entries.
pub open spec fn entry_views(es: Seq<CompletionEntry>) -> Seq<CompletionEntryView> {
    es.map_values(|e: CompletionEntry| e@)
}

/// The first import among the contexts of a symbol, if any.
pub open spec fn first_import(cs: Seq<ContextView>) -> Option<ImportContextView>
    decreases cs.len(),
{
    if cs.len() == 0 {
        None
    } else {
        match cs[0] {
            ContextView::Import(c) => Some(c),
            _ => first_import(cs.drop_first()),
        }
    }
}

/// The item that a completion offers for the symbol `info`: a function
/// with its name inserted after an import and a call snippet elsewhere,
/// and its description; a variable with its type; nothing for an import
/// path.
pub open spec fn completion_entry(g: GenericsMap, info: SymbolInfoView, after_import: bool) -> Option<
    CompletionEntryView,
> {
    match info.symbol_type {
        SymbolTypeView::Function(f) => Some(
            CompletionEntryView {
                label: info.name,
                kind: CompletionKind::Function,
                insert_text: Some(
                    if after_import {
                        info.name
                    } else {
                        call_snippet(info.name, f.arguments)
                    },
                ),
                detail: Some(symbol_text(g, info)),
                description: None,
            },
        ),
        SymbolTypeView::Variable(_) => Some(
            CompletionEntryView {
                label: info.name,
                kind: CompletionKind::Variable,
                insert_text: None,
                detail: None,
                description: Some(type_string(g.types(), g.rank(), info.data_type)),
            },
        ),
        SymbolTypeView::ImportPath => None,
    }
}

/// The names among which a completion at the symbol `info` in version
/// `file` of a file chooses: after an import, the public definitions of
/// the imported file; elsewhere, the names defined in `file`.
pub open spec fn completion_pool(
    tables: Map<(usize, i32), SymbolTableView>,
    info: SymbolInfoView,
    file: (usize, i32),
) -> Set<Seq<char>> {
    match first_import(info.contexts) {
        Some(c) => c.public_definitions.dom(),
        None => tables[file].definitions.dom(),
    }
}

/// The item offered for `name`: after an import, where the import does not
/// already name it, for its public definition wherever that stands in its
/// file; elsewhere, for the definition in force at the start of `info`.
pub open spec fn offered(
    g: GenericsMap,
    tables: Map<(usize, i32), SymbolTableView>,
    info: SymbolInfoView,
    file: (usize, i32),
    name: Seq<char>,
) -> Option<CompletionEntryView> {
    let target = match first_import(info.contexts) {
        Some(c) => if c.imported_symbols.contains(name) {
            None
        } else {
            definition_info(tables, name, location_file(c.public_definitions[name]), usize::MAX)
        },
        None => definition_info(tables, name, file, info.span.start),
    };
    match target {
        Some(t) => completion_entry(g, t, first_import(info.contexts) is Some),
        None => None,
    }
}

/// The items offered for `names`, in their order, skipping those for
/// which nothing is offered.
pub open spec fn offered_all(
    g: GenericsMap,
    tables: Map<(usize, i32), SymbolTableView>,
    info: SymbolInfoView,
    file: (usize, i32),
    names: Seq<Seq<char>>,
) -> Seq<CompletionEntryView>
    decreases names.len(),
{
    if names.len() == 0 {
        Seq::empty()
    } else {
        let rest = offered_all(g, tables, info, file, names.drop_last());
        match offered(g, tables, info, file, names.last()) {
            Some(e) => rest.push(e),
            None => rest,
        }
    }
}

/// The import context among `contexts`, searched from `i` on.
fn find_import(contexts: &Vec<Context>, i: usize) -> (r: Option<&ImportContext>)
    requires
        i <= contexts.len(),
    ensures
        match r {
            Some(c) => first_import(crate::analysis::contexts_view(contexts@).skip(i as int)) == Some(c@),
            None => first_import(crate::analysis::contexts_view(contexts@).skip(i as int)) is None,
        },
    decreases contexts.len() - i,
{
    let ghost cs = crate::analysis::contexts_view(contexts@).skip(i as int);
    if i == contexts.len() {
        return None;
    }
    proof {
        assert(cs.drop_first() =~= crate::analysis::contexts_view(contexts@).skip(i + 1));
        assert(cs[0] == contexts@[i as int]@);
    }
    match &contexts[i] {
        Context::Import(c) => Some(c),
        _ => find_import(contexts, i + 1),
    }
}

/// The item offered for the definition `target`, as [`completion_entry`]
/// says.
fn entry_for(target: &SymbolInfo, after_import: bool, generics_map: &GenericsMap) -> (r: Option<
    CompletionEntry,
>)
    requires
        generics_map.wf(),
    ensures
        match r {
            Some(e) => completion_entry(*generics_map, target@, after_import) == Some(e@),
            None => completion_entry(*generics_map, target@, after_import) is None,
        },
{
    match &target.symbol_type {
        SymbolType::Function(f) => {
            let insert = if after_import {
                target.name.clone()
            } else {
                completion_snippet(&target.name, &f.arguments)
            };
            Some(
                CompletionEntry {
                    label: target.name.clone(),
                    kind: CompletionKind::Function,
                    insert_text: Some(insert),
                    detail: Some(target.to_string(generics_map)),
                    description: None,
                },
            )
        },
        SymbolType::Variable(_) => Some(
            CompletionEntry {
                label: target.name.clone(),
                kind: CompletionKind::Variable,
                insert_text: None,
                detail: None,
                description: Some(target.data_type.to_string(generics_map)),
            },
        ),
        SymbolType::ImportPath => None,
    }
}

/// The items that a completion at the symbol `info` in version `file` of a
/// file offers: one for each name of [`completion_pool`], in an order that
/// is left open, as [`offered`] says; none where the symbol follows no
/// import and `file` has no symbol table.
pub fn completion_entries(files: &Files, info: &SymbolInfo, file: (FileId, FileVersion)) -> (r:
    Option<Vec<CompletionEntry>>)
    requires
        files.wf(),
    ensures
        r is None <==> first_import(info@.contexts) is None && !files.symbol_tables().contains_key(
            file_key(file),
        ),
        r matches Some(es) ==> exists|names: Seq<Seq<char>>|
            #![trigger offered_all(files.generics(), files.symbol_tables(), info@, file_key(file), names)]
            names.no_duplicates() && names.to_set() == completion_pool(
                files.symbol_tables(),
                info@,
                file_key(file),
            ) && entry_views(es@) == offered_all(
                files.generics(),
                files.symbol_tables(),
                info@,
                file_key(file),
                names,
            ),
{
    let ghost g = files.generics();
    let ghost tables = files.symbol_tables();
    let ghost k = file_key(file);
    let generics_map = files.generic_types();
    let import = find_import(&info.contexts, 0);
    proof {
        assert(crate::analysis::contexts_view(info.contexts@).skip(0) =~= info@.contexts);
    }
    let names = match import {
        Some(c) => c.public_definitions.keys(),
        None => match files.definition_names((file.0.0, file.1.0)) {
            Some(ns) => ns,
            None => return None,
        },
    };
    let ghost all = names_of(names@);
    proof {
        assert(all.to_set() =~= completion_pool(tables, info@, k));
    }
    let mut out: Vec<CompletionEntry> = Vec::new();
    let mut i: usize = 0;
    while i < names.len()
        invariant
            i <= names.len(),
            all == names_of(names@),
            all.to_set() == completion_pool(tables, info@, k),
            g == files.generics(),
            tables == files.symbol_tables(),
            k == file_key(file),
            *generics_map == g,
            g.wf(),
            match import {
                Some(c) => first_import(info@.contexts) == Some(c@),
                None => first_import(info@.contexts) is None,
            },
            entry_views(out@) == offered_all(g, tables, info@, k, all.take(i as int)),
        decreases names.len() - i,
    {
        proof {
            assert(all.take(i + 1).drop_last() =~= all.take(i as int));
            assert(all.take(i + 1).last() == names@[i as int]@);
            assert(all[i as int] == names@[i as int]@);
            assert(all.to_set().contains(all[i as int]));
        }
        let name = &names[i];
        let target = match import {
            Some(c) => {
                proof {
                    assert(string_views(c.imported_symbols@) =~= strings_view(c.imported_symbols@));
                }
                if contains_string(&c.imported_symbols, name) {
                    None
                } else {
                    match c.public_definitions.get(name) {
                        Some(loc) => get_symbol_definition_info(files, name.as_str(), &loc.file, usize::MAX),
                        None => None,
                    }
                }
            },
            None => get_symbol_definition_info(files, name.as_str(), &file, info.span.start),
        };
        let ghost before = entry_views(out@);
        match target {
            Some(t) => {
                match entry_for(&t, import.is_some(), generics_map) {
                    Some(e) => {
                        out.push(e);
                        proof {
                            assert(entry_views(out@) =~= before.push(e@));
                        }
                    },
                    None => {},
                }
            },
            None => {},
        }
        i += 1;
    }
    proof {
        assert(all.take(i as int) =~= all);
    }
    Some(out)
}

/// The symbol at a position of a version of a document whose text `rope`
/// holds, with the char offset that the position names, as [`offset_at`]
/// says; none where that offset does not fit in a `usize`, where the
/// version has no symbol table, or where no symbol is found there.
pub fn symbol_at_position(
    files: &Files,
    file: (FileId, FileVersion),
    rope: &ropey::Rope,
    position: Position,
) -> (r: Option<(SymbolInfo, usize)>)
    ensures
        ({
            let o = offset_at(rope_text(*rope), position);
            let k = file_key(file);
            match r {
                Some((info, offset)) => offset == o && files.symbol_tables().contains_key(k) && symbol_at(
                    files.symbol_tables()[k],
                    offset,
                ) == Some(info@),
                None => o > usize::MAX || !files.symbol_tables().contains_key(k) || symbol_at(
                    files.symbol_tables()[k],
                    o as usize,
                ) is None,
            }
        }),
{
    let offset = match position_to_offset(position, rope) {
        Some(o) => o,
        None => return None,
    };
    match files.symbol_at((file.0.0, file.1.0), offset) {
        Some(Some(info)) => Some((info, offset)),
        _ => None,
    }
}

/// Where a go-to-definition request leads: for an import path, a link
/// from the span of the path to the start of the imported file; for any
/// other symbol, the span of its definition in the file that holds it.
#[derive(Clone, Copy, Debug, PartialEq, Eq)]
pub enum GotoTarget {
    Link { origin: Span, file: FileId },
    Location { file: FileId, start: usize, end: usize },
}

/// What a go-to-definition request at `offset` answers, where `open` holds
/// the ids of the files whose documents are open: nothing where
/// [`definition_target`] finds no definition or where the file of the
/// definition is not open; otherwise a link for an import path and the
/// definition's location for any other symbol.
pub open spec fn goto_answer(t: SymbolTableView, offset: usize, open: Seq<usize>) -> Option<GotoTarget> {
    match definition_target(t, offset) {
        None => None,
        Some(loc) => if !open.contains(loc.file.0.0) {
            None
        } else if t.symbols[offset].symbol_type is ImportPath {
            Some(GotoTarget::Link { origin: t.symbols[offset].span, file: loc.file.0 })
        } else {
            Some(GotoTarget::Location { file: loc.file.0, start: loc.start, end: loc.end })
        },
    }
}

/// What a go-to-definition request at `offset` answers, as
/// [`goto_answer`] says.
pub fn goto_definition(table: &SymbolTable, offset: usize, open: &Vec<usize>) -> (r: Option<GotoTarget>)
    ensures
        r == goto_answer(table@, offset, open@),
{
    let (info, loc) = match find_definition(table, offset) {
        Some(found) => found,
        None => return None,
    };
    let mut is_open = false;
    let mut i: usize = 0;
    while i < open.len()
        invariant
            i <= open.len(),
            is_open <==> exists|j: int| 0 <= j < i && open@[j] == loc.file.0.0,
        decreases open.len() - i,
    {
        if open[i] == loc.file.0.0 {
            is_open = true;
        }
        i += 1;
    }
    if !is_open {
        return None;
    }
    match &info.symbol_type {
        SymbolType::ImportPath => Some(GotoTarget::Link { origin: info.span, file: loc.file.0 }),
        _ => Some(GotoTarget::Location { file: loc.file.0, start: loc.start, end: loc.end }),
    }
}

/// A signature help: the description of the function, the labels of its
/// parameters and the parameter that the cursor is on.
#[derive(Debug, PartialEq, Eq)]
pub struct SignatureHelp {
    pub label: String,
    pub parameters: Vec<String>,
    pub active_parameter: usize,
}

/// Whether a signature help is given for a symbol: where there is one, it
/// is defined and it is a function.
pub open spec fn has_signature(info: Option<SymbolInfoView>) -> bool {
    info matches Some(i) && !i.undefined && i.symbol_type is Function
}

/// The signature help for the symbol found at the cursor at `offset`:
/// nothing where there is no symbol, it is undefined or it is no
/// function; otherwise the description of the function, the labels of its
/// parameters in order, as [`parameter_label`] says, and the parameter
/// that the cursor is on, as [`active_index`] says.
pub fn signature_help(info: Option<&SymbolInfo>, offset: usize, generics_map: &GenericsMap) -> (r: Option<
    SignatureHelp,
>)
    requires
        generics_map.wf(),
    ensures
        r is Some <==> has_signature(
            match info {
                Some(i) => Some(i@),
                None => None,
            },
        ),
        r matches Some(h) ==> {
            let i = info->0@;
            let args = i.symbol_type->Function_0.arguments;
            &&& h.label@ == symbol_text(*generics_map, i)
            &&& h.parameters@.len() == args.len()
            &&& forall|j: int|
                0 <= j < args.len() ==> #[trigger] h.parameters@[j]@ == parameter_label(
                    *generics_map,
                    args[j].0,
                )
            &&& h.active_parameter == active_index(args, offset)
        },
{
    let info = match info {
        Some(i) => i,
        None => return None,
    };
    if info.undefined {
        return None;
    }
    match &info.symbol_type {
        SymbolType::Function(f) => {
            let label = info.to_string(generics_map);
            let parameters = parameter_labels(&f.arguments, generics_map);
            let active_parameter = active_parameter(&f.arguments, offset);
            proof {
                assert forall|j: int| 0 <= j < argument_views(f.arguments@).len() implies argument_views(f.arguments@)[j].0 == f.arguments@[j].0@ by {}
            }
            Some(SignatureHelp { label, parameters, active_parameter })
        },
        _ => None,
    }
}

} // verus!
