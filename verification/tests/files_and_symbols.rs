use amber_lsp::analysis::{
    get_symbol_definition_info, import_symbol, insert_symbol_definition, insert_symbol_reference,
    Context, FunctionArgument, FunctionSymbol, SymbolInfo, SymbolLocation, SymbolTable, SymbolType,
    VariableSymbol,
};
use amber_lsp::files::{FileVersion, Files};
use amber_lsp::generics::GenericsMap;
use amber_lsp::grammar::{CompilerFlag, Span};
use amber_lsp::paths::{FileId, PathInterner};
use amber_lsp::types::DataType;

fn var_info(name: &str, start: usize, end: usize, ty: DataType) -> SymbolInfo {
    SymbolInfo {
        name: name.to_string(),
        symbol_type: SymbolType::Variable(VariableSymbol { is_const: false }),
        data_type: ty,
        is_definition: true,
        undefined: false,
        span: Span { start, end },
        contexts: vec![],
    }
}

#[test]
fn prev_n_version_stops_at_one() {
    assert_eq!(FileVersion(12).prev_n_version(10), FileVersion(2));
    assert_eq!(FileVersion(5).prev_n_version(10), FileVersion(1));
    assert_eq!(FileVersion(11).prev_n_version(10), FileVersion(1));
    let v: i32 = FileVersion(9).into();
    assert_eq!(v, 9);
}

#[test]
fn interner_gives_ids_in_order() {
    let mut paths = PathInterner::default();
    let a = paths.insert("file:///a.ab".to_string());
    let b = paths.insert("file:///b.ab".to_string());
    let a2 = paths.insert("file:///a.ab".to_string());
    assert_eq!(a, FileId(0));
    assert_eq!(b, FileId(1));
    assert_eq!(a2, a);
    assert_eq!(paths.get("file:///b.ab"), Some(FileId(1)));
    assert_eq!(paths.get("file:///c.ab"), None);
    assert_eq!(paths.lookup(&FileId(1)), "file:///b.ab");
}

#[test]
fn new_version_drops_the_data_of_the_old_one() {
    let mut files = Files::new();
    let id = files.insert("file:///main.ab".to_string(), FileVersion(1));
    assert_eq!(files.get_latest_version(id), FileVersion(1));
    files.report_error(&(id, FileVersion(1)), "oops", Span { start: 0, end: 3 });
    files.put_symbol_table((id.0, 1), SymbolTable::default());
    files.add_new_file_version(id, FileVersion(2));
    assert_eq!(files.get_latest_version(id), FileVersion(2));
    assert!(files.take_symbol_table((id.0, 1)).is_none());
    assert_eq!(files.lookup(&id), "file:///main.ab");
    assert_eq!(files.get("file:///main.ab"), Some(id));
}

#[test]
fn change_latest_version_moves_the_table() {
    let mut files = Files::new();
    let id = files.insert("file:///main.ab".to_string(), FileVersion(3));
    files.report_error(&(id, FileVersion(3)), "oops", Span { start: 0, end: 3 });
    let mut table = SymbolTable::default();
    insert_symbol_definition(
        &mut table,
        &var_info("x", 4, 5, DataType::Number),
        (id, FileVersion(3)),
        4..=20,
        false,
    );
    files.put_symbol_table((id.0, 3), table);
    files.change_latest_file_version(id, FileVersion(4));
    assert!(files.take_symbol_table((id.0, 3)).is_none());
    let moved = files.take_symbol_table((id.0, 4)).unwrap();
    assert_eq!(moved.symbols.get(4).unwrap().name, "x");
}

#[test]
fn dependencies() {
    let mut files = Files::new();
    let a = files.insert("file:///a.ab".to_string(), FileVersion(1));
    let b = files.insert("file:///b.ab".to_string(), FileVersion(1));
    let c = files.insert("file:///c.ab".to_string(), FileVersion(1));
    files.add_file_dependency(&(a, FileVersion(1)), b);
    files.add_file_dependency(&(b, FileVersion(1)), c);
    assert!(files.is_depending_on(&(a, FileVersion(1)), b));
    assert!(files.is_depending_on(&(a, FileVersion(1)), c));
    assert!(!files.is_depending_on(&(c, FileVersion(1)), a));
    assert!(!files.is_depending_on(&(b, FileVersion(1)), a));
    let dependants = files.get_files_dependant_on(c);
    assert_eq!(dependants, vec![(b, FileVersion(1))]);
    assert!(files.get_files_dependant_on(a).is_empty());
}

#[test]
fn definition_is_found_in_its_scope_only() {
    let mut files = Files::new();
    let id = files.insert("file:///main.ab".to_string(), FileVersion(1));
    let file = (id, FileVersion(1));
    let mut table = SymbolTable::default();
    insert_symbol_definition(&mut table, &var_info("x", 4, 5, DataType::Text), file, 4..=30, false);
    files.put_symbol_table((id.0, 1), table);
    let found = get_symbol_definition_info(&files, "x", &file, 10).unwrap();
    assert_eq!(found.data_type, DataType::Text);
    assert!(found.is_definition);
    assert!(get_symbol_definition_info(&files, "x", &file, 31).is_none());
    assert!(get_symbol_definition_info(&files, "y", &file, 10).is_none());
}

#[test]
fn empty_spans_record_nothing() {
    let mut table = SymbolTable::default();
    let file = (FileId(0), FileVersion(1));
    insert_symbol_definition(&mut table, &var_info("x", 4, 4, DataType::Text), file, 4..=30, true);
    assert!(table.symbols.get(4).is_none());
    insert_symbol_definition(&mut table, &var_info("x", 4, 6, DataType::Text), file, 9..=3, true);
    assert!(table.symbols.get(4).is_none());
    assert!(table.public_definitions.get(&"x".to_string()).is_none());
}

#[test]
fn public_definitions_and_imports() {
    let mut table = SymbolTable::default();
    let file = (FileId(0), FileVersion(1));
    insert_symbol_definition(&mut table, &var_info("x", 4, 6, DataType::Text), file, 4..=30, true);
    let loc = table.public_definitions.get(&"x".to_string()).unwrap();
    assert_eq!(*loc, SymbolLocation { file, start: 4, end: 6 });

    let mut other = SymbolTable::default();
    let elsewhere = SymbolLocation { file: (FileId(1), FileVersion(2)), start: 1, end: 2 };
    import_symbol(&mut other, &var_info("y", 1, 2, DataType::Number), Some(7..=8), &elsewhere, false);
    assert_eq!(other.symbols.get(7).unwrap().name, "y");
    let scopes = other.definitions.get(&"y".to_string()).unwrap();
    assert_eq!(scopes.get(0), Some(elsewhere));
    assert_eq!(scopes.get(usize::MAX), Some(elsewhere));
}

#[test]
fn reference_to_undefined_symbol_reports_an_error() {
    let mut files = Files::new();
    let id = files.insert("file:///main.ab".to_string(), FileVersion(1));
    let file = (id, FileVersion(1));
    files.put_symbol_table((id.0, 1), SymbolTable::default());
    let g = GenericsMap::new();
    let loc = SymbolLocation { file, start: 10, end: 13 };
    insert_symbol_reference("foo", &mut files, &loc, &g, &[Context::Main]);
    let table = files.take_symbol_table((id.0, 1)).unwrap();
    let info = table.symbols.get(11).unwrap();
    assert!(info.undefined);
    assert_eq!(info.data_type, DataType::Null);
    assert_eq!(info.contexts, vec![Context::Main]);
    assert_eq!(table.references.get(&"foo".to_string()).unwrap(), &vec![loc]);
}

#[test]
fn reference_resolves_inferred_generics() {
    let mut files = Files::new();
    let id = files.insert("file:///main.ab".to_string(), FileVersion(1));
    let file = (id, FileVersion(1));
    let mut table = SymbolTable::default();
    insert_symbol_definition(&mut table, &var_info("v", 0, 1, DataType::Generic(3)), file, 0..=50, false);
    files.put_symbol_table((id.0, 1), table);
    let mut g = GenericsMap::new();
    g.constrain_generic_type(3, DataType::Number);
    g.mark_as_inferred(3);
    let loc = SymbolLocation { file, start: 20, end: 21 };
    insert_symbol_reference("v", &mut files, &loc, &g, &[]);
    let table = files.take_symbol_table((id.0, 1)).unwrap();
    let info = table.symbols.get(20).unwrap();
    assert!(!info.undefined);
    assert!(!info.is_definition);
    assert_eq!(info.data_type, DataType::Number);
}

#[test]
fn symbol_descriptions() {
    let g = GenericsMap::new();
    let var = var_info("count", 0, 5, DataType::Number);
    assert_eq!(var.to_string(&g), "count: Num");
    let import = SymbolInfo {
        name: "std/text".to_string(),
        symbol_type: SymbolType::ImportPath,
        data_type: DataType::Text,
        is_definition: true,
        undefined: false,
        span: Span { start: 0, end: 5 },
        contexts: vec![],
    };
    assert_eq!(import.to_string(&g), "import \"std/text\"");
    let fun = SymbolInfo {
        name: "join".to_string(),
        symbol_type: SymbolType::Function(FunctionSymbol {
            arguments: vec![
                (
                    FunctionArgument {
                        name: "list".to_string(),
                        data_type: DataType::Array(Box::new(DataType::Text)),
                        is_optional: false,
                        is_ref: true,
                    },
                    Span { start: 0, end: 1 },
                ),
                (
                    FunctionArgument {
                        name: "sep".to_string(),
                        data_type: DataType::Text,
                        is_optional: true,
                        is_ref: false,
                    },
                    Span { start: 2, end: 3 },
                ),
            ],
            is_public: true,
            compiler_flags: vec![CompilerFlag::AllowAbsurdCast],
            docs: None,
        }),
        data_type: DataType::Text,
        is_definition: true,
        undefined: false,
        span: Span { start: 0, end: 5 },
        contexts: vec![],
    };
    assert_eq!(
        fun.to_string(&g),
        "allow_absurd_cast\npub fun join(ref list: [Text], sep?: Text): Text"
    );
}

#[test]
fn files_constrain_generic_narrows_and_skips_cycles() {
    let mut files = Files::new();
    files.constrain_generic(1, DataType::Generic(2));
    files.constrain_generic(2, DataType::Number);
    assert_eq!(files.generic_types().get(2), DataType::Number);
    assert_eq!(files.generic_types().get_recursive(1), DataType::Number);
    // Narrowing 3 to an array of itself would make a cycle: nothing changes.
    files.constrain_generic(3, DataType::Array(Box::new(DataType::Generic(3))));
    assert_eq!(files.generic_types().get(3), DataType::Any);
}

#[test]
fn documents_tokens_and_trees_follow_the_latest_version() {
    let mut files = Files::new();
    let id = files.insert("file:///main.ab".to_string(), FileVersion(1));
    files.report_error(&(id, FileVersion(1)), "oops", Span { start: 0, end: 1 });
    files.put_symbol_table((id.0, 1), SymbolTable::default());
    files.insert_document((id.0, 1), ropey::Rope::from_str("echo 1"));
    files.insert_semantic_tokens((id.0, 1), vec![(2, Span { start: 0, end: 4 })]);
    files.insert_ast((id.0, 1), vec![]);
    files.change_latest_file_version(id, FileVersion(2));
    files.add_new_file_version(id, FileVersion(2));
    let (doc, v) = files.get_document_latest_version(id).unwrap();
    assert_eq!(v, FileVersion(2));
    assert_eq!(doc.to_string(), "echo 1");
    assert_eq!(files.semantic_tokens_of((id.0, 2)), Some(vec![(2, Span { start: 0, end: 4 })]));
    assert_eq!(files.semantic_tokens_of((id.0, 1)), None);
    // A new version drops what the latest one had.
    files.add_new_file_version(id, FileVersion(3));
    assert!(files.get_document_latest_version(id).is_none());
    assert_eq!(files.semantic_tokens_of((id.0, 2)), None);
}
