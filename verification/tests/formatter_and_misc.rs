use amber_lsp::amber_version::{
    map_import_path, version_from_output, version_from_text, AmberVersion, CliAmberVersion,
};
use amber_lsp::formatter::{FormattingError, Output, SpanTextOutput, TextOutput};
use amber_lsp::fs::{LocalFs, MemoryFS};
use amber_lsp::grammar::{CompilerFlag, FunctionArgument, GlobalStatement, ImportContent, Span};
use amber_lsp::results::{get_stmnt_analysis_result, ExpAnalysisResult, StmntAnalysisResult};
use amber_lsp::types::DataType;

fn sp(start: usize, end: usize) -> Span {
    Span { start, end }
}

#[test]
fn empty_output_formats_to_nothing() {
    assert_eq!(Output::default().format("anything").ok(), Some(String::new()));
}

#[test]
fn import_statement_is_formatted() {
    let stmt = GlobalStatement::Import(
        (true, sp(0, 3)),
        ("import".to_string(), sp(4, 10)),
        (
            ImportContent::ImportSpecific(vec![
                ("a".to_string(), sp(12, 13)),
                ("b".to_string(), sp(15, 16)),
            ]),
            sp(11, 17),
        ),
        ("from".to_string(), sp(18, 22)),
        ("\"std\"".to_string(), sp(23, 28)),
    );
    let mut out = Output::default();
    (stmt, sp(0, 28)).output(&mut out);
    assert_eq!(
        out.format("").ok(),
        Some("pub import { a b } from \"std\"\n".to_string())
    );
}

#[test]
fn function_definition_is_formatted_with_source_spans() {
    let source = "fun add(a: Num, b): Num { }";
    let stmt = GlobalStatement::FunctionDefinition(
        vec![(CompilerFlag::AllowGenericReturn, sp(0, 0))],
        (false, sp(0, 0)),
        ("fun".to_string(), sp(0, 3)),
        ("add".to_string(), sp(4, 7)),
        vec![
            (
                FunctionArgument::Typed(
                    (false, sp(8, 8)),
                    ("a".to_string(), sp(8, 9)),
                    (DataType::Number, sp(11, 13)),
                ),
                sp(8, 14),
            ),
            (FunctionArgument::Generic((true, sp(16, 16)), ("b".to_string(), sp(16, 17))), sp(16, 17)),
        ],
        Some((DataType::Number, sp(20, 22))),
        vec![],
    );
    let mut out = Output::default();
    stmt.output(&sp(0, 27), &mut out);
    assert_eq!(
        out.format(source).ok(),
        Some("#[allow_generic_return]\nfun add(a, ref b): Num { Null }\n".to_string())
    );
}

#[test]
fn span_past_the_source_is_an_error() {
    let mut out = Output::default();
    DataType::Text.output(&sp(5, 2), &mut out);
    match out.format("abc") {
        Err(FormattingError::SpanDoesntExist { start, end }) => {
            assert_eq!((start, end), (2, 5));
        }
        _ => panic!("expected a missing span"),
    }
}

#[test]
fn span_inside_a_character_is_invalid_utf8() {
    let mut out = Output::default();
    DataType::Text.output(&sp(0, 0), &mut out);
    match out.format("é") {
        Err(FormattingError::InvalidSpan(_)) => {}
        _ => panic!("expected invalid UTF-8"),
    }
}

#[test]
fn flag_text() {
    let mut out = Output::default();
    CompilerFlag::AllowNestedIfElse.output(&sp(0, 0), &mut out);
    assert_eq!(out.format("").ok(), Some("#[allow_nested_if_else]".to_string()));
}

#[test]
fn versions_from_command_output() {
    assert_eq!(version_from_text("amber 0.3.4-alpha\n"), AmberVersion::Alpha034);
    assert_eq!(version_from_text("amber 0.3.5-alpha"), AmberVersion::Alpha035);
    assert_eq!(version_from_text("amber 0.4.0-alpha  "), AmberVersion::Alpha040);
    assert_eq!(version_from_text("amber 9.9.9"), AmberVersion::Alpha040);
    assert_eq!(version_from_text("   "), AmberVersion::Alpha040);
    assert_eq!(version_from_output(Some(b"amber 0.3.5-alpha\n")), AmberVersion::Alpha035);
    assert_eq!(version_from_output(None), AmberVersion::Alpha040);
}

#[test]
fn cli_versions() {
    let all = CliAmberVersion::value_variants();
    assert_eq!(all.len(), 4);
    assert_eq!(all[0].name(), "auto");
    assert_eq!(CliAmberVersion::Alpha040.name(), "0.4.0-alpha");
    assert_eq!(AmberVersion::from(CliAmberVersion::Auto), AmberVersion::Alpha034);
    assert_eq!(AmberVersion::from(CliAmberVersion::Alpha035), AmberVersion::Alpha035);
}

#[test]
fn memory_fs_reads_back_what_was_written() {
    let mut fs = MemoryFS::new();
    assert!(!fs.has_file("/a/b.ab"));
    fs.write("/a/b.ab", "echo 1");
    fs.write("/a/c.ab", "echo 2");
    fs.write("/d.ab", "echo 3");
    fs.write("/a/b.ab", "echo 4");
    assert!(fs.has_file("/a/b.ab"));
    assert_eq!(fs.read("/a/b.ab"), "echo 4");
    let mut listed = fs.read_dir("/a/");
    listed.sort();
    assert_eq!(listed, vec!["/a/b.ab".to_string(), "/a/c.ab".to_string()]);
    let _local = LocalFs::new();
}

#[test]
fn statement_results_are_summed_up() {
    let r = get_stmnt_analysis_result(vec![], vec![]);
    assert_eq!(r, StmntAnalysisResult { is_propagating_failure: false, return_ty: None });
    let r = get_stmnt_analysis_result(
        vec![
            StmntAnalysisResult { is_propagating_failure: false, return_ty: Some(DataType::Number) },
            StmntAnalysisResult { is_propagating_failure: false, return_ty: None },
        ],
        vec![ExpAnalysisResult {
            exp_ty: DataType::Text,
            is_propagating_failure: true,
            return_ty: Some(DataType::Text),
        }],
    );
    assert!(r.is_propagating_failure);
    assert_eq!(r.return_ty, Some(DataType::Union(vec![DataType::Number, DataType::Text])));
}

#[test]
fn data_type_output_ends_with_a_space() {
    let mut out = Output::default();
    DataType::Text.output(&sp(0, 3), &mut out);
    assert_eq!(out.format("Text").ok(), Some("Text ".to_string()));
}

#[test]
fn standard_library_imports_are_mapped_by_version() {
    assert_eq!(map_import_path("std", AmberVersion::Alpha034), Some("std/main".to_string()));
    assert_eq!(map_import_path("std", AmberVersion::Alpha040), Some("std".to_string()));
    assert_eq!(map_import_path("std/text", AmberVersion::Alpha034), Some("std/text".to_string()));
    assert_eq!(map_import_path("builtin", AmberVersion::Alpha035), Some("builtin".to_string()));
    assert_eq!(map_import_path("./lib.ab", AmberVersion::Alpha034), None);
    assert_eq!(map_import_path("stdlib", AmberVersion::Alpha034), None);
}

#[test]
fn unicode_white_space_ends_the_version_text() {
    assert_eq!(version_from_text("amber 0.3.5-alpha\u{3000}\u{a0}\t"), AmberVersion::Alpha035);
    assert_eq!(version_from_text("amber 0.3.4-alpha\u{2009}"), AmberVersion::Alpha034);
}
