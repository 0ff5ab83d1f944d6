use amber_lsp::analysis::{Context, FunctionContext, SymbolTable};
use amber_lsp::analyze::{
    analyze_block, analyze_exp, analyze_failure_handler, analyze_stmnt, decimal_string,
};
use amber_lsp::files::{FileVersion, Files};
use amber_lsp::generics::GenericsMap;
use amber_lsp::grammar::{
    Block, ElseCondition, Expression, FailureHandler, IfChainContent, IfCondition,
    InterpolatedText, Span, Statement, VariableInitType,
};
use amber_lsp::paths::FileId;
use amber_lsp::types::DataType;

fn sp(start: usize, end: usize) -> Span {
    Span { start, end }
}

fn setup() -> (Files, FileId) {
    let mut files = Files::new();
    let id = files.insert("file:///main.ab".to_string(), FileVersion(1));
    files.put_symbol_table((id.0, 1), SymbolTable::default());
    (files, id)
}

fn messages(files: &Files, id: FileId) -> Vec<String> {
    files
        .errors_of_file(&(id, FileVersion(1)))
        .into_iter()
        .map(|(m, _)| m)
        .collect()
}

#[test]
fn literals_have_their_types() {
    let (mut files, id) = setup();
    let mut g = GenericsMap::new();
    let ctx = vec![];
    let t = analyze_exp(id, FileVersion(1), &(Expression::Number(("1".to_string(), sp(0, 1))), sp(0, 1)), DataType::Any, &mut files, &mut g, &ctx);
    assert_eq!(t, DataType::Number);
    let t = analyze_exp(id, FileVersion(1), &(Expression::Null, sp(0, 4)), DataType::Any, &mut files, &mut g, &ctx);
    assert_eq!(t, DataType::Null);
    let text = Expression::Text(vec![(InterpolatedText::Text(("hi".to_string(), sp(1, 3))), sp(1, 3))]);
    let t = analyze_exp(id, FileVersion(1), &(text, sp(0, 4)), DataType::Any, &mut files, &mut g, &ctx);
    assert_eq!(t, DataType::Text);
    assert!(messages(&files, id).is_empty());
}

#[test]
fn empty_span_is_an_error_type() {
    let (mut files, id) = setup();
    let mut g = GenericsMap::new();
    let t = analyze_exp(id, FileVersion(1), &(Expression::Null, sp(5, 4)), DataType::Number, &mut files, &mut g, &vec![]);
    assert_eq!(t, DataType::Error);
    assert!(messages(&files, id).is_empty());
}

#[test]
fn mismatch_is_reported() {
    let (mut files, id) = setup();
    let mut g = GenericsMap::new();
    let t = analyze_exp(id, FileVersion(1), &(Expression::Boolean((true, sp(0, 4))), sp(0, 4)), DataType::Number, &mut files, &mut g, &vec![]);
    assert_eq!(t, DataType::Boolean);
    assert_eq!(messages(&files, id), vec!["Expected type Num, found type Bool".to_string()]);
}

#[test]
fn undefined_variable() {
    let (mut files, id) = setup();
    let mut g = GenericsMap::new();
    let t = analyze_exp(id, FileVersion(1), &(Expression::Var(("x".to_string(), sp(0, 1))), sp(0, 1)), DataType::Any, &mut files, &mut g, &vec![]);
    assert_eq!(t, DataType::Null);
    assert_eq!(messages(&files, id), vec!["\"x\" is not defined".to_string()]);
}

#[test]
fn defined_variable_has_its_type() {
    let (mut files, id) = setup();
    let mut g = GenericsMap::new();
    let ctx = vec![];
    let init = Statement::VariableInit(
        ("let".to_string(), sp(0, 3)),
        ("x".to_string(), sp(4, 5)),
        (VariableInitType::Expression((Expression::Number(("1".to_string(), sp(8, 9))), sp(8, 9))), sp(8, 9)),
    );
    let r = analyze_stmnt(id, FileVersion(1), &(init, sp(0, 9)), &mut files, 100, &mut g, &ctx);
    assert!(r.is_none());
    let t = analyze_exp(id, FileVersion(1), &(Expression::Var(("x".to_string(), sp(20, 21))), sp(20, 21)), DataType::Number, &mut files, &mut g, &ctx);
    assert_eq!(t, DataType::Number);
    assert!(messages(&files, id).is_empty());
}

#[test]
fn array_of_mixed_types() {
    let (mut files, id) = setup();
    let mut g = GenericsMap::new();
    let arr = Expression::Array(vec![
        (Expression::Number(("1".to_string(), sp(1, 2))), sp(1, 2)),
        (Expression::Text(vec![]), sp(4, 6)),
    ]);
    let t = analyze_exp(id, FileVersion(1), &(arr, sp(0, 7)), DataType::Any, &mut files, &mut g, &vec![]);
    assert_eq!(t, DataType::Array(Box::new(DataType::Union(vec![DataType::Number, DataType::Text]))));
    assert_eq!(messages(&files, id), vec!["Array must have elements of the same type".to_string()]);
}

#[test]
fn addition_of_number_and_text() {
    let (mut files, id) = setup();
    let mut g = GenericsMap::new();
    let add = Expression::Add(
        Box::new((Expression::Number(("1".to_string(), sp(0, 1))), sp(0, 1))),
        Box::new((Expression::Text(vec![]), sp(4, 6))),
    );
    let t = analyze_exp(id, FileVersion(1), &(add, sp(0, 6)), DataType::Any, &mut files, &mut g, &vec![]);
    assert_eq!(t, DataType::Number);
    assert_eq!(
        messages(&files, id),
        vec![
            "Expected type Num, found type Text".to_string(),
            "Expected type Text, found type Num".to_string()
        ]
    );
}

#[test]
fn undefined_function() {
    let (mut files, id) = setup();
    let mut g = GenericsMap::new();
    let call = Expression::FunctionInvocation(vec![], ("foo".to_string(), sp(0, 3)), vec![], None);
    let t = analyze_exp(id, FileVersion(1), &(call, sp(0, 5)), DataType::Any, &mut files, &mut g, &vec![]);
    assert_eq!(t, DataType::Null);
    assert_eq!(messages(&files, id), vec!["foo is not defined".to_string()]);
}

#[test]
fn status_is_a_number() {
    let (mut files, id) = setup();
    let mut g = GenericsMap::new();
    let t = analyze_exp(id, FileVersion(1), &(Expression::Status, sp(0, 6)), DataType::Any, &mut files, &mut g, &vec![]);
    assert_eq!(t, DataType::Number);
    let table = files.take_symbol_table((id.0, 1)).unwrap();
    assert_eq!(table.symbols.get(3).unwrap().name, "status");
}

#[test]
fn status_without_a_table() {
    let mut files = Files::new();
    let id = files.insert("file:///main.ab".to_string(), FileVersion(1));
    let mut g = GenericsMap::new();
    let t = analyze_exp(id, FileVersion(1), &(Expression::Status, sp(0, 6)), DataType::Any, &mut files, &mut g, &vec![]);
    assert_eq!(t, DataType::Error);
}

#[test]
fn loop_statements_outside_of_loops() {
    let (mut files, id) = setup();
    let mut g = GenericsMap::new();
    let r = analyze_stmnt(id, FileVersion(1), &(Statement::Break, sp(0, 5)), &mut files, 10, &mut g, &vec![]);
    assert!(r.is_none());
    let r = analyze_stmnt(id, FileVersion(1), &(Statement::Continue, sp(6, 14)), &mut files, 20, &mut g, &vec![Context::Loop]);
    assert!(r.is_none());
    assert_eq!(messages(&files, id), vec!["Break statement outside of loop".to_string()]);
}

#[test]
fn return_outside_and_inside_functions() {
    let (mut files, id) = setup();
    let mut g = GenericsMap::new();
    let ret = Statement::Return(("return".to_string(), sp(0, 6)), None);
    let r = analyze_stmnt(id, FileVersion(1), &(ret, sp(0, 6)), &mut files, 10, &mut g, &vec![]);
    assert_eq!(r, Some(DataType::Null));
    let ret = Statement::Return(
        ("return".to_string(), sp(0, 6)),
        Some(Box::new((Expression::Boolean((true, sp(7, 11))), sp(7, 11)))),
    );
    let ctx = vec![Context::Function(FunctionContext { compiler_flags: vec![] })];
    let r = analyze_stmnt(id, FileVersion(1), &(ret, sp(0, 11)), &mut files, 20, &mut g, &ctx);
    assert_eq!(r, Some(DataType::Boolean));
    assert_eq!(messages(&files, id), vec!["Return statement outside of function".to_string()]);
}

#[test]
fn block_returns_union_of_its_returns() {
    let (mut files, id) = setup();
    let mut g = GenericsMap::new();
    let ctx = vec![Context::Function(FunctionContext { compiler_flags: vec![] })];
    let body = Block::Block(
        vec![],
        vec![
            (Statement::Return(("return".to_string(), sp(1, 7)), Some(Box::new((Expression::Number(("1".to_string(), sp(8, 9))), sp(8, 9))))), sp(1, 9)),
            (Statement::Return(("return".to_string(), sp(10, 16)), None), sp(10, 16)),
        ],
    );
    let r = analyze_block(id, FileVersion(1), &(body, sp(0, 20)), &mut files, &mut g, &ctx);
    assert_eq!(r, Some(DataType::Union(vec![DataType::Number, DataType::Null])));
    let r = analyze_block(id, FileVersion(1), &(Block::Error, sp(0, 1)), &mut files, &mut g, &ctx);
    assert_eq!(r, None);
}

#[test]
fn decimal_numbers() {
    assert_eq!(decimal_string(0), "0");
    assert_eq!(decimal_string(7), "7");
    assert_eq!(decimal_string(1203), "1203");
}

#[test]
fn block_of_plain_statements_returns_nothing() {
    let (mut files, id) = setup();
    let mut g = GenericsMap::new();
    let ctx = vec![Context::Function(FunctionContext { compiler_flags: vec![] })];
    let body = Block::Block(
        vec![],
        vec![
            (Statement::Expression(Box::new((Expression::Number(("1".to_string(), sp(1, 2))), sp(1, 2)))), sp(1, 2)),
            (Statement::Expression(Box::new((Expression::Null, sp(3, 7)))), sp(3, 7)),
        ],
    );
    let r = analyze_block(id, FileVersion(1), &(body, sp(0, 10)), &mut files, &mut g, &ctx);
    assert_eq!(r, None);
    assert!(messages(&files, id).is_empty());
}

#[test]
fn failure_handler_reports_misplaced_statements() {
    let (mut files, id) = setup();
    let mut g = GenericsMap::new();
    let handler = FailureHandler::Handle(
        ("failed".to_string(), sp(0, 6)),
        vec![
            (Statement::Break, sp(9, 14)),
            (Statement::Return(("return".to_string(), sp(15, 21)), None), sp(15, 21)),
        ],
    );
    analyze_failure_handler(id, FileVersion(1), &(handler, sp(0, 23)), &mut files, &mut g, &vec![]);
    assert_eq!(
        messages(&files, id),
        vec![
            "Break statement outside of loop".to_string(),
            "Return statement outside of function".to_string(),
        ]
    );
    analyze_failure_handler(id, FileVersion(1), &(FailureHandler::Propagate, sp(30, 31)), &mut files, &mut g, &vec![]);
    assert_eq!(messages(&files, id).len(), 2);
}

#[test]
fn shorthand_on_a_text_variable() {
    let (mut files, id) = setup();
    let mut g = GenericsMap::new();
    let ctx = vec![];
    let init = Statement::VariableInit(
        ("let".to_string(), sp(0, 3)),
        ("x".to_string(), sp(4, 5)),
        (VariableInitType::Expression((Expression::Text(vec![]), sp(8, 10))), sp(8, 10)),
    );
    analyze_stmnt(id, FileVersion(1), &(init, sp(0, 10)), &mut files, 100, &mut g, &ctx);
    let sub = Statement::ShorthandSub(
        ("x".to_string(), sp(20, 21)),
        Box::new((Expression::Number(("1".to_string(), sp(25, 26))), sp(25, 26))),
    );
    analyze_stmnt(id, FileVersion(1), &(sub, sp(20, 26)), &mut files, 100, &mut g, &ctx);
    assert_eq!(
        messages(&files, id),
        vec!["Cannot use subtract with variable of type Text".to_string()]
    );
}

fn num(v: &str, a: usize, b: usize) -> (Expression, Span) {
    (Expression::Number((v.to_string(), sp(a, b))), sp(a, b))
}

#[test]
fn ternary_is_the_union_of_its_branches() {
    let (mut files, id) = setup();
    let mut g = GenericsMap::new();
    let e = (
        Expression::Ternary(
            Box::new((Expression::Boolean((true, sp(0, 4))), sp(0, 4))),
            ("then".to_string(), sp(5, 9)),
            Box::new(num("1", 10, 11)),
            ("else".to_string(), sp(12, 16)),
            Box::new((Expression::Text(vec![]), sp(17, 19))),
        ),
        sp(0, 19),
    );
    let t = analyze_exp(id, FileVersion(1), &e, DataType::Any, &mut files, &mut g, &vec![]);
    assert_eq!(t, DataType::Union(vec![DataType::Number, DataType::Text]));
    assert!(messages(&files, id).is_empty());
    let p = (Expression::Parentheses(Box::new(num("2", 1, 2))), sp(0, 3));
    let t = analyze_exp(id, FileVersion(1), &p, DataType::Any, &mut files, &mut g, &vec![]);
    assert_eq!(t, DataType::Number);
}

#[test]
fn returned_value_gives_its_type_and_is_reported_outside_functions() {
    let (mut files, id) = setup();
    let mut g = GenericsMap::new();
    let ret = Statement::Return(("return".to_string(), sp(0, 6)), Some(Box::new(num("1", 7, 8))));
    let r = analyze_stmnt(id, FileVersion(1), &(ret, sp(0, 8)), &mut files, 100, &mut g, &vec![]);
    assert_eq!(r, Some(DataType::Number));
    assert_eq!(messages(&files, id), vec!["Return statement outside of function".to_string()]);
}

#[test]
fn block_reports_misplaced_statements_and_unites_returns() {
    let (mut files, id) = setup();
    let mut g = GenericsMap::new();
    let body = Block::Block(
        vec![],
        vec![
            (Statement::Continue, sp(1, 9)),
            (Statement::Return(("return".to_string(), sp(10, 16)), Some(Box::new((Expression::Text(vec![]), sp(17, 19))))), sp(10, 19)),
        ],
    );
    let r = analyze_block(id, FileVersion(1), &(body, sp(0, 20)), &mut files, &mut g, &vec![]);
    assert_eq!(r, Some(DataType::Text));
    assert_eq!(
        messages(&files, id),
        vec![
            "Continue statement outside of loop".to_string(),
            "Return statement outside of function".to_string(),
        ]
    );
}

#[test]
fn constant_is_declared_in_its_contexts() {
    let (mut files, id) = setup();
    let mut g = GenericsMap::new();
    let ctx = vec![Context::Function(FunctionContext { compiler_flags: vec![] })];
    let init = Statement::ConstInit(
        ("const".to_string(), sp(0, 5)),
        ("c".to_string(), sp(6, 7)),
        Box::new(num("3", 10, 11)),
    );
    analyze_stmnt(id, FileVersion(1), &(init, sp(0, 11)), &mut files, 50, &mut g, &ctx);
    let table = files.take_symbol_table((id.0, 1)).unwrap();
    let info = table.symbols.get(6).unwrap();
    assert_eq!(info.name, "c");
    assert!(info.is_definition);
    assert_eq!(info.data_type, DataType::Number);
    assert_eq!(info.contexts.len(), 1);
}

#[test]
fn returned_variable_has_its_type_without_errors() {
    let (mut files, id) = setup();
    let mut g = GenericsMap::new();
    let ctx = vec![Context::Function(FunctionContext { compiler_flags: vec![] })];
    let init = Statement::VariableInit(
        ("let".to_string(), sp(0, 3)),
        ("x".to_string(), sp(4, 5)),
        (VariableInitType::Expression((Expression::Text(vec![]), sp(8, 10))), sp(8, 10)),
    );
    analyze_stmnt(id, FileVersion(1), &(init, sp(0, 10)), &mut files, 100, &mut g, &ctx);
    let ret = Statement::Return(
        ("return".to_string(), sp(20, 26)),
        Some(Box::new((Expression::Var(("x".to_string(), sp(27, 28))), sp(27, 28)))),
    );
    let r = analyze_stmnt(id, FileVersion(1), &(ret, sp(20, 28)), &mut files, 100, &mut g, &ctx);
    assert_eq!(r, Some(DataType::Text));
    assert!(messages(&files, id).is_empty());
}

#[test]
fn mismatch_on_a_literal_is_its_only_error() {
    let (mut files, id) = setup();
    let mut g = GenericsMap::new();
    let t = analyze_exp(id, FileVersion(1), &num("1", 0, 1), DataType::Text, &mut files, &mut g, &vec![]);
    assert_eq!(t, DataType::Number);
    assert_eq!(messages(&files, id), vec!["Expected type Text, found type Num".to_string()]);
    let t = analyze_exp(id, FileVersion(1), &num("2", 2, 3), DataType::Number, &mut files, &mut g, &vec![]);
    assert_eq!(t, DataType::Number);
    assert_eq!(messages(&files, id).len(), 1);
}

#[test]
fn if_checks_its_condition_then_analyzes_its_block() {
    let (mut files, id) = setup();
    let mut g = GenericsMap::new();
    let body = Block::Block(
        vec![],
        vec![
            (Statement::Break, sp(5, 10)),
            (Statement::Return(("return".to_string(), sp(11, 17)), Some(Box::new(num("2", 18, 19)))), sp(11, 19)),
        ],
    );
    let stmt = Statement::IfCondition(
        ("if".to_string(), sp(0, 2)),
        (IfCondition::IfCondition(Box::new(num("1", 3, 4)), (body, sp(4, 20))), sp(3, 20)),
        vec![],
        None,
    );
    let ctx = vec![Context::Loop];
    let r = analyze_stmnt(id, FileVersion(1), &(stmt, sp(0, 20)), &mut files, 100, &mut g, &ctx);
    assert_eq!(r, Some(DataType::Number));
    assert_eq!(
        messages(&files, id),
        vec![
            "Expected type Bool, found type Num".to_string(),
            "Return statement outside of function".to_string(),
        ]
    );
}

#[test]
fn if_chain_analyzes_its_first_branch_only() {
    let (mut files, id) = setup();
    let mut g = GenericsMap::new();
    let first = Block::Block(
        vec![],
        vec![(Statement::Return(("return".to_string(), sp(10, 16)), Some(Box::new(num("1", 17, 18)))), sp(10, 18))],
    );
    let second = Block::Block(vec![], vec![(Statement::Break, sp(30, 35))]);
    let chain = vec![
        (
            IfChainContent::IfCondition((
                IfCondition::IfCondition(Box::new((Expression::Boolean((true, sp(5, 9))), sp(5, 9))), (first, sp(9, 20))),
                sp(5, 20),
            )),
            sp(5, 20),
        ),
        (
            IfChainContent::Else((ElseCondition::Else(("else".to_string(), sp(21, 25)), (second, sp(26, 40))), sp(21, 40))),
            sp(21, 40),
        ),
    ];
    let stmt = Statement::IfChain(("if".to_string(), sp(0, 2)), chain);
    let ctx = vec![Context::Function(FunctionContext { compiler_flags: vec![] })];
    let r = analyze_stmnt(id, FileVersion(1), &(stmt, sp(0, 41)), &mut files, 100, &mut g, &ctx);
    assert_eq!(r, Some(DataType::Number));
    assert!(messages(&files, id).is_empty());
}

#[test]
fn expression_echo_fail_and_set_statements_analyze_their_values() {
    let (mut files, id) = setup();
    let mut g = GenericsMap::new();
    let ctx = vec![Context::Main];
    let undefined = |a: usize, b: usize| Box::new((Expression::Var(("y".to_string(), sp(a, b))), sp(a, b)));
    analyze_stmnt(id, FileVersion(1), &(Statement::Expression(undefined(0, 1)), sp(0, 1)), &mut files, 100, &mut g, &ctx);
    analyze_stmnt(id, FileVersion(1), &(Statement::Echo(("echo".to_string(), sp(2, 6)), undefined(7, 8)), sp(2, 8)), &mut files, 100, &mut g, &ctx);
    let fail = Statement::Fail(
        ("fail".to_string(), sp(10, 14)),
        Some(Box::new((Expression::Boolean((true, sp(15, 19))), sp(15, 19)))),
    );
    analyze_stmnt(id, FileVersion(1), &(fail, sp(10, 19)), &mut files, 100, &mut g, &ctx);
    let init = Statement::VariableInit(
        ("let".to_string(), sp(20, 23)),
        ("x".to_string(), sp(24, 25)),
        (VariableInitType::Expression(num("1", 28, 29)), sp(28, 29)),
    );
    analyze_stmnt(id, FileVersion(1), &(init, sp(20, 29)), &mut files, 100, &mut g, &ctx);
    let set = Statement::VariableSet(("x".to_string(), sp(30, 31)), Box::new((Expression::Text(vec![]), sp(34, 36))));
    analyze_stmnt(id, FileVersion(1), &(set, sp(30, 36)), &mut files, 100, &mut g, &ctx);
    assert_eq!(
        messages(&files, id),
        vec![
            "\"y\" is not defined".to_string(),
            "\"y\" is not defined".to_string(),
            "Expected type Num, found type Bool".to_string(),
            "Expected type Num, found type Text".to_string(),
        ]
    );
}

#[test]
fn calling_a_variable_reports_it_is_not_a_function() {
    let (mut files, id) = setup();
    let mut g = GenericsMap::new();
    let init = Statement::VariableInit(
        ("let".to_string(), sp(0, 3)),
        ("x".to_string(), sp(4, 5)),
        (VariableInitType::Expression(num("1", 8, 9)), sp(8, 9)),
    );
    analyze_stmnt(id, FileVersion(1), &(init, sp(0, 9)), &mut files, 100, &mut g, &vec![]);
    let call = Expression::FunctionInvocation(vec![], ("x".to_string(), sp(20, 21)), vec![], None);
    let t = analyze_exp(id, FileVersion(1), &(call, sp(20, 23)), DataType::Any, &mut files, &mut g, &vec![]);
    assert_eq!(t, DataType::Number);
    assert_eq!(messages(&files, id), vec!["x is not a function".to_string()]);
}
