use amber_lsp::analysis::{
    insert_symbol_definition, Context, FunctionArgument, FunctionSymbol, ImportContext,
    SymbolInfo, SymbolLocation, SymbolTable, SymbolType, VariableSymbol,
};
use amber_lsp::files::{FileVersion, Files};
use amber_lsp::grammar::Span;
use amber_lsp::name_map::NameMap;
use amber_lsp::paths::FileId;
use amber_lsp::document::Position;
use amber_lsp::queries::{
    completion_entries, symbol_at_position, CompletionEntry, CompletionKind,
};
use amber_lsp::types::DataType;

fn sp(start: usize, end: usize) -> Span {
    Span { start, end }
}

fn variable(name: &str, ty: DataType, span: Span) -> SymbolInfo {
    SymbolInfo {
        name: name.to_string(),
        symbol_type: SymbolType::Variable(VariableSymbol { is_const: false }),
        data_type: ty,
        is_definition: true,
        undefined: false,
        span,
        contexts: vec![],
    }
}

fn function(name: &str, args: &[&str], span: Span) -> SymbolInfo {
    SymbolInfo {
        name: name.to_string(),
        symbol_type: SymbolType::Function(FunctionSymbol {
            arguments: args
                .iter()
                .enumerate()
                .map(|(i, a)| {
                    (
                        FunctionArgument {
                            name: a.to_string(),
                            data_type: DataType::Text,
                            is_optional: false,
                            is_ref: false,
                        },
                        sp(span.end + 1 + i, span.end + 2 + i),
                    )
                })
                .collect(),
            is_public: true,
            compiler_flags: vec![],
            docs: None,
        }),
        data_type: DataType::Null,
        is_definition: true,
        undefined: false,
        span,
        contexts: vec![],
    }
}

fn sorted(mut entries: Vec<CompletionEntry>) -> Vec<CompletionEntry> {
    entries.sort_by(|a, b| a.label.cmp(&b.label));
    entries
}

/// A file with a variable `count` and a function `greet(name)`, both in
/// force from their definitions to offset `last`.
fn file_with_definitions(files: &mut Files, id: FileId, is_public: bool, last: usize) {
    let file = (id, FileVersion(1));
    let mut table = SymbolTable::default();
    insert_symbol_definition(&mut table, &variable("count", DataType::Number, sp(4, 9)), file, 9..=last, is_public);
    insert_symbol_definition(&mut table, &function("greet", &["name"], sp(20, 25)), file, 25..=last, is_public);
    files.put_symbol_table((id.0, 1), table);
}

#[test]
fn completion_offers_names_in_force() {
    let mut files = Files::new();
    let id = files.insert("file:///main.ab".to_string(), FileVersion(1));
    file_with_definitions(&mut files, id, false, 100);
    let at = variable("c", DataType::Null, sp(50, 51));
    let entries = sorted(completion_entries(&files, &at, (id, FileVersion(1))).unwrap());
    assert_eq!(
        entries,
        vec![
            CompletionEntry {
                label: "count".to_string(),
                kind: CompletionKind::Variable,
                insert_text: None,
                detail: None,
                description: Some("Num".to_string()),
            },
            CompletionEntry {
                label: "greet".to_string(),
                kind: CompletionKind::Function,
                insert_text: Some("greet(${1:name})".to_string()),
                detail: Some("pub fun greet(name: Text): Null".to_string()),
                description: None,
            },
        ]
    );
}

#[test]
fn completion_skips_names_not_yet_defined() {
    let mut files = Files::new();
    let id = files.insert("file:///main.ab".to_string(), FileVersion(1));
    file_with_definitions(&mut files, id, false, 100);
    // At offset 15 only `count` is in force.
    let at = variable("c", DataType::Null, sp(15, 16));
    let entries = completion_entries(&files, &at, (id, FileVersion(1))).unwrap();
    assert_eq!(entries.len(), 1);
    assert_eq!(entries[0].label, "count");
}

#[test]
fn completion_without_a_table_offers_nothing() {
    let files = Files::new();
    let at = variable("c", DataType::Null, sp(0, 1));
    assert_eq!(completion_entries(&files, &at, (FileId(7), FileVersion(1))), None);
}

#[test]
fn completion_after_import_offers_public_definitions() {
    let mut files = Files::new();
    let lib = files.insert("file:///lib.ab".to_string(), FileVersion(1));
    let main = files.insert("file:///main.ab".to_string(), FileVersion(1));
    file_with_definitions(&mut files, lib, true, usize::MAX);
    let mut public = NameMap::new();
    public.insert(
        "count".to_string(),
        SymbolLocation { file: (lib, FileVersion(1)), start: 4, end: 9 },
    );
    public.insert(
        "greet".to_string(),
        SymbolLocation { file: (lib, FileVersion(1)), start: 20, end: 25 },
    );
    let at = SymbolInfo {
        contexts: vec![
            Context::Main,
            Context::Import(ImportContext {
                public_definitions: public,
                imported_symbols: vec!["count".to_string()],
            }),
        ],
        ..variable("g", DataType::Null, sp(8, 9))
    };
    let entries = completion_entries(&files, &at, (main, FileVersion(1))).unwrap();
    assert_eq!(
        entries,
        vec![CompletionEntry {
            label: "greet".to_string(),
            kind: CompletionKind::Function,
            insert_text: Some("greet".to_string()),
            detail: Some("pub fun greet(name: Text): Null".to_string()),
            description: None,
        }]
    );
}

#[test]
fn symbol_found_at_a_position() {
    let mut files = Files::new();
    let id = files.insert("file:///main.ab".to_string(), FileVersion(1));
    file_with_definitions(&mut files, id, false, 100);
    let rope = ropey::Rope::from_str("let\ncount = 1\n");
    // Line 1 starts at offset 4, so column 2 is offset 6, inside `count`.
    let (info, offset) =
        symbol_at_position(&files, (id, FileVersion(1)), &rope, Position { line: 1, character: 2 })
            .unwrap();
    assert_eq!(offset, 6);
    assert_eq!(info.name, "count");
    assert!(symbol_at_position(&files, (id, FileVersion(1)), &rope, Position { line: 0, character: 1 })
        .is_none());
    assert!(symbol_at_position(&files, (FileId(9), FileVersion(1)), &rope, Position { line: 1, character: 2 })
        .is_none());
}
