use amber_lsp::analysis::{
    get_symbol_definition_info, insert_symbol_definition, FunctionArgument, FunctionSymbol,
    SymbolInfo, SymbolLocation, SymbolTable, SymbolType, VariableSymbol,
};
use amber_lsp::analyze::{analyze_function_definition, analyze_global_stmnt, analyze_import};
use amber_lsp::files::{FileVersion, Files};
use amber_lsp::generics::GenericsMap;
use amber_lsp::grammar::{
    CompilerFlag, Expression, FunctionArgument as ArgDecl, GlobalStatement, ImportContent, Span,
    Statement,
};
use amber_lsp::paths::FileId;
use amber_lsp::queries::{
    active_parameter, completion_snippet, find_definition, goto_definition, hover_text,
    parameter_labels, signature_help, GotoTarget,
};
use amber_lsp::types::DataType;

fn sp(start: usize, end: usize) -> Span {
    Span { start, end }
}

fn messages(files: &Files, id: FileId, v: i32) -> Vec<String> {
    files
        .errors_of_file(&(id, FileVersion(v)))
        .into_iter()
        .map(|(m, _)| m)
        .collect()
}

fn arg(name: &str, ty: DataType, span: Span) -> (FunctionArgument, Span) {
    (
        FunctionArgument { name: name.to_string(), data_type: ty, is_optional: false, is_ref: false },
        span,
    )
}

#[test]
fn function_definition_is_recorded() {
    let mut files = Files::new();
    let id = files.insert("file:///main.ab".to_string(), FileVersion(1));
    files.put_symbol_table((id.0, 1), SymbolTable::default());
    let body = vec![(
        Statement::Return(
            ("return".to_string(), sp(20, 26)),
            Some(Box::new((Expression::Var(("a".to_string(), sp(27, 28))), sp(27, 28)))),
        ),
        sp(20, 28),
    )];
    analyze_function_definition(
        id,
        FileVersion(1),
        &vec![(CompilerFlag::AllowAbsurdCast, sp(0, 1))],
        true,
        &("id".to_string(), sp(4, 6)),
        &vec![(ArgDecl::Generic((false, sp(7, 7)), ("a".to_string(), sp(7, 8))), sp(7, 8))],
        &None,
        &body,
        sp(0, 30),
        &mut files,
    );
    let info = get_symbol_definition_info(&files, "id", &(id, FileVersion(1)), 40).unwrap();
    assert!(info.is_definition);
    match info.symbol_type {
        SymbolType::Function(f) => {
            assert!(f.is_public);
            assert_eq!(f.arguments.len(), 1);
            assert_eq!(f.arguments[0].0.name, "a");
            assert!(matches!(f.arguments[0].0.data_type, DataType::Generic(_)));
        }
        _ => panic!("expected a function"),
    }
    assert!(messages(&files, id, 1).is_empty());
}

#[test]
fn declared_return_type_mismatch() {
    let mut files = Files::new();
    let id = files.insert("file:///main.ab".to_string(), FileVersion(1));
    files.put_symbol_table((id.0, 1), SymbolTable::default());
    let body = vec![(
        Statement::Return(
            ("return".to_string(), sp(20, 26)),
            Some(Box::new((Expression::Boolean((true, sp(27, 31))), sp(27, 31)))),
        ),
        sp(20, 31),
    )];
    analyze_function_definition(
        id,
        FileVersion(1),
        &vec![],
        false,
        &("f".to_string(), sp(4, 5)),
        &vec![],
        &Some((DataType::Number, sp(9, 12))),
        &body,
        sp(0, 33),
        &mut files,
    );
    assert_eq!(
        messages(&files, id, 1),
        vec!["Function returns type Bool, but expected Num".to_string()]
    );
    let info = get_symbol_definition_info(&files, "f", &(id, FileVersion(1)), 50).unwrap();
    assert_eq!(info.data_type, DataType::Number);
}

#[test]
fn import_of_a_missing_file() {
    let mut files = Files::new();
    let id = files.insert("file:///main.ab".to_string(), FileVersion(1));
    analyze_import(
        id,
        FileVersion(1),
        false,
        &ImportContent::ImportAll,
        &("\"nowhere.ab\"".to_string(), sp(12, 24)),
        None,
        &mut files,
    );
    assert_eq!(messages(&files, id, 1), vec!["File doesn't exist".to_string()]);
}

#[test]
fn import_brings_in_public_definitions() {
    let mut files = Files::new();
    let lib = files.insert("file:///lib.ab".to_string(), FileVersion(1));
    let main = files.insert("file:///main.ab".to_string(), FileVersion(1));
    let mut lib_table = SymbolTable::default();
    insert_symbol_definition(
        &mut lib_table,
        &SymbolInfo {
            name: "x".to_string(),
            symbol_type: SymbolType::Variable(VariableSymbol { is_const: true }),
            data_type: DataType::Text,
            is_definition: true,
            undefined: false,
            span: sp(4, 5),
            contexts: vec![],
        },
        (lib, FileVersion(1)),
        5..=100,
        true,
    );
    files.put_symbol_table((lib.0, 1), lib_table);
    let global = vec![(
        GlobalStatement::Import(
            (false, sp(0, 0)),
            ("import".to_string(), sp(0, 6)),
            (
                ImportContent::ImportSpecific(vec![
                    ("x".to_string(), sp(9, 10)),
                    ("y".to_string(), sp(12, 13)),
                ]),
                sp(7, 15),
            ),
            ("from".to_string(), sp(16, 20)),
            ("\"lib.ab\"".to_string(), sp(21, 29)),
        ),
        sp(0, 29),
    )];
    analyze_global_stmnt(main, FileVersion(1), &global, &vec![Some((lib, FileVersion(1)))], &mut files);
    assert_eq!(messages(&files, main, 1), vec!["Could not resolve 'y'".to_string()]);
    let x = get_symbol_definition_info(&files, "x", &(main, FileVersion(1)), 40).unwrap();
    assert_eq!(x.data_type, DataType::Text);
    let table = files.take_symbol_table((main.0, 1)).unwrap();
    let path = table.symbols.get(22).unwrap();
    assert_eq!(path.symbol_type, SymbolType::ImportPath);
    let target = find_definition(&table, 22).unwrap();
    assert_eq!(target.1, SymbolLocation { file: (lib, FileVersion(1)), start: 0, end: 1 });
}

#[test]
fn go_to_definition_skips_definitions_themselves() {
    let mut table = SymbolTable::default();
    let file = (FileId(0), FileVersion(1));
    insert_symbol_definition(
        &mut table,
        &SymbolInfo {
            name: "v".to_string(),
            symbol_type: SymbolType::Variable(VariableSymbol { is_const: false }),
            data_type: DataType::Number,
            is_definition: true,
            undefined: false,
            span: sp(4, 5),
            contexts: vec![],
        },
        file,
        5..=50,
        false,
    );
    assert!(find_definition(&table, 4).is_none());
    assert!(find_definition(&table, 30).is_none());
}

#[test]
fn hover_and_signature_help() {
    let g = GenericsMap::new();
    let f = SymbolInfo {
        name: "add".to_string(),
        symbol_type: SymbolType::Function(FunctionSymbol {
            arguments: vec![arg("a", DataType::Number, sp(4, 5)), arg("b", DataType::Text, sp(7, 8))],
            is_public: false,
            compiler_flags: vec![],
            docs: Some("Adds.".to_string()),
        }),
        data_type: DataType::Number,
        is_definition: false,
        undefined: false,
        span: sp(0, 9),
        contexts: vec![],
    };
    assert_eq!(
        hover_text(&f, &g),
        Some("Adds.\n```amber\nfun add(a: Num, b: Text): Num\n```".to_string())
    );
    if let SymbolType::Function(sym) = &f.symbol_type {
        assert_eq!(active_parameter(&sym.arguments, 7), 1);
        assert_eq!(active_parameter(&sym.arguments, 4), 0);
        assert_eq!(active_parameter(&sym.arguments, 100), 0);
        assert_eq!(parameter_labels(&sym.arguments, &g), vec!["a: Num".to_string(), "b: Text".to_string()]);
        assert_eq!(completion_snippet(&f.name, &sym.arguments), "add(${1:a}, ${2:b})");
    }
    let undefined = SymbolInfo { undefined: true, ..f };
    assert_eq!(hover_text(&undefined, &g), None);
}

#[test]
fn goto_definition_needs_the_file_open() {
    let mut table = SymbolTable::default();
    let file = (FileId(3), FileVersion(1));
    insert_symbol_definition(
        &mut table,
        &SymbolInfo {
            name: "v".to_string(),
            symbol_type: SymbolType::Variable(VariableSymbol { is_const: false }),
            data_type: DataType::Number,
            is_definition: true,
            undefined: false,
            span: sp(4, 5),
            contexts: vec![],
        },
        file,
        5..=50,
        false,
    );
    let loc = SymbolLocation { file, start: 4, end: 5 };
    table.symbols.insert(20, 21, SymbolInfo {
        name: "v".to_string(),
        symbol_type: SymbolType::Variable(VariableSymbol { is_const: false }),
        data_type: DataType::Number,
        is_definition: false,
        undefined: false,
        span: sp(20, 21),
        contexts: vec![],
    });
    assert_eq!(find_definition(&table, 20).map(|d| d.1), Some(loc));
    assert_eq!(goto_definition(&table, 20, &vec![3]), Some(GotoTarget::Location { file: FileId(3), start: 4, end: 5 }));
    assert_eq!(goto_definition(&table, 20, &vec![1, 2]), None);
    assert_eq!(goto_definition(&table, 4, &vec![3]), None);
}

#[test]
fn signature_help_only_for_defined_functions() {
    let g = GenericsMap::new();
    let f = SymbolInfo {
        name: "add".to_string(),
        symbol_type: SymbolType::Function(FunctionSymbol {
            arguments: vec![arg("a", DataType::Number, sp(4, 5)), arg("b", DataType::Text, sp(7, 8))],
            is_public: false,
            compiler_flags: vec![],
            docs: None,
        }),
        data_type: DataType::Number,
        is_definition: false,
        undefined: false,
        span: sp(0, 9),
        contexts: vec![],
    };
    let h = signature_help(Some(&f), 7, &g).unwrap();
    assert_eq!(h.label, "fun add(a: Num, b: Text): Num");
    assert_eq!(h.parameters, vec!["a: Num".to_string(), "b: Text".to_string()]);
    assert_eq!(h.active_parameter, 1);
    assert!(signature_help(None, 7, &g).is_none());
    let undefined = SymbolInfo { undefined: true, ..f };
    assert!(signature_help(Some(&undefined), 7, &g).is_none());
    let v = SymbolInfo {
        name: "x".to_string(),
        symbol_type: SymbolType::Variable(VariableSymbol { is_const: false }),
        data_type: DataType::Number,
        is_definition: false,
        undefined: false,
        span: sp(0, 1),
        contexts: vec![],
    };
    assert!(signature_help(Some(&v), 0, &g).is_none());
}

#[test]
fn function_type_is_what_its_body_returns() {
    let mut files = Files::new();
    let id = files.insert("file:///main.ab".to_string(), FileVersion(1));
    files.put_symbol_table((id.0, 1), SymbolTable::default());
    let body = vec![
        (
            Statement::Return(
                ("return".to_string(), sp(20, 26)),
                Some(Box::new((Expression::Number(("1".to_string(), sp(27, 28))), sp(27, 28)))),
            ),
            sp(20, 28),
        ),
        (Statement::Return(("return".to_string(), sp(29, 35)), None), sp(29, 35)),
    ];
    analyze_function_definition(
        id,
        FileVersion(1),
        &vec![],
        false,
        &("g".to_string(), sp(4, 5)),
        &vec![
            (ArgDecl::Error, sp(6, 7)),
            (ArgDecl::Typed((true, sp(8, 8)), ("t".to_string(), sp(8, 9)), (DataType::Text, sp(11, 15))), sp(8, 15)),
        ],
        &None,
        &body,
        sp(0, 37),
        &mut files,
    );
    let info = get_symbol_definition_info(&files, "g", &(id, FileVersion(1)), 50).unwrap();
    assert_eq!(info.data_type, DataType::Union(vec![DataType::Number, DataType::Null]));
    match info.symbol_type {
        SymbolType::Function(f) => {
            assert_eq!(f.arguments.len(), 1);
            assert_eq!(f.arguments[0].0.name, "t");
            assert!(f.arguments[0].0.is_ref);
            assert_eq!(f.arguments[0].0.data_type, DataType::Text);
        }
        _ => panic!("expected a function"),
    }
}

#[test]
fn global_statements_report_misplaced_statements() {
    let mut files = Files::new();
    let id = files.insert("file:///main.ab".to_string(), FileVersion(1));
    files.put_symbol_table((id.0, 1), SymbolTable::default());
    let global = vec![
        (
            GlobalStatement::Main(("main".to_string(), sp(0, 4)), None, vec![(Statement::Break, sp(7, 12))]),
            sp(0, 14),
        ),
        (
            GlobalStatement::Statement((Statement::Return(("return".to_string(), sp(15, 21)), None), sp(15, 21))),
            sp(15, 21),
        ),
    ];
    analyze_global_stmnt(id, FileVersion(1), &global, &vec![], &mut files);
    assert_eq!(
        messages(&files, id, 1),
        vec![
            "Break statement outside of loop".to_string(),
            "Return statement outside of function".to_string(),
        ]
    );
}
