//! The analysis of the statements and expressions of a document written
//! for Amber 0.3.4-alpha: it infers the type of each expression, records
//! the symbols that are defined and referred to, narrows the generic
//! types, and reports the errors it finds.

use vstd::prelude::*;

use crate::analysis::{
    copy_contexts, definition_info, get_symbol_definition_info, insert_symbol_definition, insert_symbol_reference,
    import_symbol, BlockContext, Context, ContextView, FunctionArgument as ArgSymbol,
    FunctionContext, FunctionSymbol,
    SymbolInfo, SymbolLocation, SymbolType, VariableSymbol,
};
use crate::files::{
    lemma_extends_refl, lemma_extends_trans, lemma_grows_trans, lemma_wf, FileVersion, Files,
};
use crate::generics::{matches_type, GenericsMap};
use crate::grammar::{
    Block, CommandModifier, CompilerFlag, ElseCondition, Expression, FailureHandler,
    FunctionArgument as ArgDecl, GlobalStatement, IfChainContent, IfCondition, ImportContent,
    InterpolatedCommand, InterpolatedText, IterLoopVars, Span, Statement, VariableInitType,
};
use crate::paths::FileId;
use crate::types::{make_union_type, DataType, Ty};

verus! {

/// The digits of `n` in decimal.
pub open spec fn decimal(n: nat) -> Seq<char>
    decreases n,
{
    if n < 10 {
        seq![digit_char(n)]
    } else {
        decimal(n / 10).push(digit_char(n % 10))
    }
}

/// The character of a decimal digit.
pub open spec fn digit_char(d: nat) -> char {
    if d == 0 {
        '0'
    } else if d == 1 {
        '1'
    } else if d == 2 {
        '2'
    } else if d == 3 {
        '3'
    } else if d == 4 {
        '4'
    } else if d == 5 {
        '5'
    } else if d == 6 {
        '6'
    } else if d == 7 {
        '7'
    } else if d == 8 {
        '8'
    } else {
        '9'
    }
}

/// `n` written in decimal.
pub fn decimal_string(n: usize) -> (r: String)
    ensures
        r@ == decimal(n as nat),
    decreases n,
{
    let d = n % 10;
    let c = if d == 0 {
        "0"
    } else if d == 1 {
        "1"
    } else if d == 2 {
        "2"
    } else if d == 3 {
        "3"
    } else if d == 4 {
        "4"
    } else if d == 5 {
        "5"
    } else if d == 6 {
        "6"
    } else if d == 7 {
        "7"
    } else if d == 8 {
        "8"
    } else {
        "9"
    };
    proof {
        reveal_strlit("0");
        reveal_strlit("1");
        reveal_strlit("2");
        reveal_strlit("3");
        reveal_strlit("4");
        reveal_strlit("5");
        reveal_strlit("6");
        reveal_strlit("7");
        reveal_strlit("8");
        reveal_strlit("9");
        assert(c@ == seq![digit_char(d as nat)]);
    }
    if n < 10 {
        String::from_str(c)
    } else {
        let mut out = decimal_string(n / 10);
        out.append(c);
        out
    }
}

/// Whether one of the contexts is a loop.
pub open spec fn in_loop(cs: Seq<ContextView>) -> bool {
    exists|i: int| 0 <= i < cs.len() && cs[i] is Loop
}

/// Whether one of the contexts is a function.
pub open spec fn in_function(cs: Seq<ContextView>) -> bool {
    exists|i: int| 0 <= i < cs.len() && cs[i] is Function
}

/// Whether one of the contexts is a function or the main block.
pub open spec fn in_function_or_main(cs: Seq<ContextView>) -> bool {
    exists|i: int| 0 <= i < cs.len() && (cs[i] is Function || cs[i] is Main)
}

/// Whether one of the contexts is a loop.
fn has_loop(contexts: &Vec<Context>) -> (r: bool)
    ensures
        r == in_loop(crate::analysis::contexts_view(contexts@)),
{
    let ghost cs = crate::analysis::contexts_view(contexts@);
    let mut i: usize = 0;
    while i < contexts.len()
        invariant
            i <= contexts.len(),
            cs == crate::analysis::contexts_view(contexts@),
            forall|j: int| 0 <= j < i ==> !(cs[j] is Loop),
        decreases contexts.len() - i,
    {
        if let Context::Loop = &contexts[i] {
            assert(cs[i as int] is Loop);
            return true;
        }
        i += 1;
    }
    false
}

/// Whether one of the contexts is a function.
fn has_function(contexts: &Vec<Context>) -> (r: bool)
    ensures
        r == in_function(crate::analysis::contexts_view(contexts@)),
{
    let ghost cs = crate::analysis::contexts_view(contexts@);
    let mut i: usize = 0;
    while i < contexts.len()
        invariant
            i <= contexts.len(),
            cs == crate::analysis::contexts_view(contexts@),
            forall|j: int| 0 <= j < i ==> !(cs[j] is Function),
        decreases contexts.len() - i,
    {
        if let Context::Function(_) = &contexts[i] {
            assert(cs[i as int] is Function);
            return true;
        }
        i += 1;
    }
    false
}

/// Whether one of the contexts is a function or the main block.
fn has_function_or_main(contexts: &Vec<Context>) -> (r: bool)
    ensures
        r == in_function_or_main(crate::analysis::contexts_view(contexts@)),
{
    let ghost cs = crate::analysis::contexts_view(contexts@);
    let mut i: usize = 0;
    while i < contexts.len()
        invariant
            i <= contexts.len(),
            cs == crate::analysis::contexts_view(contexts@),
            forall|j: int| 0 <= j < i ==> !(cs[j] is Function || cs[j] is Main),
        decreases contexts.len() - i,
    {
        match &contexts[i] {
            Context::Function(_) => {
                assert(cs[i as int] is Function);
                return true;
            },
            Context::Main => {
                assert(cs[i as int] is Main);
                return true;
            },
            _ => {},
        }
        i += 1;
    }
    false
}

/// What the analysis leaves of a scoped generic map: no cycle, and the
/// same inferred ids and ids per file.
pub open spec fn generics_kept(after: GenericsMap, before: GenericsMap) -> bool {
    &&& after.wf()
    &&& after.inferred_ids() == before.inferred_ids()
    &&& after.ids_per_file() == before.ids_per_file()
}

/// The type that an expression has whatever its parts are, if it has one
/// such type.
pub open spec fn fixed_type(e: Expression) -> Option<Ty> {
    match e {
        Expression::Number(_) => Some(Ty::Number),
        Expression::Boolean(_) => Some(Ty::Boolean),
        Expression::Null => Some(Ty::Null),
        Expression::Error => Some(Ty::Any),
        Expression::Text(_) => Some(Ty::Text),
        Expression::Command(_, _, _) => Some(Ty::Text),
        Expression::Nameof(_, _) => Some(Ty::Text),
        Expression::Subtract(_, _) => Some(Ty::Number),
        Expression::Multiply(_, _) => Some(Ty::Number),
        Expression::Divide(_, _) => Some(Ty::Number),
        Expression::Modulo(_, _) => Some(Ty::Number),
        Expression::Neg(_, _) => Some(Ty::Number),
        Expression::And(_, _, _) => Some(Ty::Boolean),
        Expression::Or(_, _, _) => Some(Ty::Boolean),
        Expression::Not(_, _) => Some(Ty::Boolean),
        Expression::Gt(_, _) => Some(Ty::Boolean),
        Expression::Ge(_, _) => Some(Ty::Boolean),
        Expression::Lt(_, _) => Some(Ty::Boolean),
        Expression::Le(_, _) => Some(Ty::Boolean),
        Expression::Eq(_, _) => Some(Ty::Boolean),
        Expression::Neq(_, _) => Some(Ty::Boolean),
        Expression::Is(_, _, _) => Some(Ty::Boolean),
        Expression::Range(_, _) => Some(Ty::Array(Box::new(Ty::Number))),
        Expression::Cast(_, _, t) => Some(t.0@),
        _ => None,
    }
}

/// The type that the analysis gives an expression whatever the symbol
/// tables and the generic types hold, where its form decides it: `Error`
/// for an empty span; the type that its form fixes, as [`fixed_type`]
/// says; for parentheses, the type of what they hold; for an addition, the
/// type of its left operand; for a ternary, the union, as
/// [`crate::types::union_of`] makes it, of the types of its two branches,
/// the then-branch first. None where the type depends on more.
pub open spec fn static_type(e: (Expression, Span)) -> Option<Ty>
    decreases e,
{
    if e.1.start > e.1.end {
        Some(Ty::Error)
    } else if fixed_type(e.0) is Some {
        fixed_type(e.0)
    } else {
        match e.0 {
            Expression::Parentheses(inner) => static_type(*inner),
            Expression::Add(left, _) => static_type(*left),
            Expression::Ternary(_, _, a, _, b) => match (static_type(*a), static_type(*b)) {
                (Some(x), Some(y)) => Some(crate::types::union_of(seq![x, y])),
                _ => None,
            },
            _ => None,
        }
    }
}

/// What the analysis of an expression states of its effects and its type
/// `r`, where `before` and `after` are the files before and after it and
/// `g0` and `g1` the scoped generic types: the files only grow, the
/// generic types stay free of cycles, an empty span gives `Error` and
/// changes nothing, a type that the form decides is that type, a variable
/// has the type of its definition, a call the type of the function, and a
/// type that does not match `expected` is reported last over the span.
/// Unless the type is `Error`, the analysis ends with the check of
/// [`type_checked`], which reports an error only on a mismatch; a literal,
/// `status` or an expression that failed to parse reports nothing else.
pub open spec fn exp_analyzed(
    file_id: FileId,
    file_version: FileVersion,
    exp: (Expression, Span),
    expected: Ty,
    before: Files,
    after: Files,
    g0: GenericsMap,
    g1: GenericsMap,
    r: Ty,
    cs: Seq<ContextView>,
) -> bool {
    let k = (file_id.0, file_version.0);
    &&& after.extends(&before)
    &&& generics_kept(g1, g0)
    &&& exp.1.start > exp.1.end ==> {
        &&& r == Ty::Error
        &&& after.errors() == before.errors()
        &&& after.symbol_tables() == before.symbol_tables()
        &&& g1.types() == g0.types()
    }
    &&& exp.1.start <= exp.1.end && fixed_type(exp.0) is Some ==> r == fixed_type(exp.0)->0
    &&& static_type(exp) matches Some(t) ==> r == t
    &&& exp.1.start <= exp.1.end && exp.0 is Array ==> r is Array
    &&& exp.1.start <= exp.1.end && exp.0 is Status ==> r == (if before.symbol_tables().contains_key(k) {
        Ty::Number
    } else {
        Ty::Error
    })
    &&& exp.1.start <= exp.1.end ==> (exp.0 matches Expression::Var(v) ==> r == match definition_info(
        after.symbol_tables(),
        v.0@,
        k,
        v.1.start,
    ) {
        Some(info) => info.data_type,
        None => Ty::Null,
    })
    &&& exp.1.start <= exp.1.end ==> (exp.0 matches Expression::FunctionInvocation(_, f, _, _) ==> {
        let def = definition_info(before.symbol_tables(), f.0@, k, f.1.start);
        &&& def is None ==> r == Ty::Null
        &&& def matches Some(info) ==> !(info.symbol_type is Function) ==> r == info.data_type
        &&& def matches Some(info) ==> before.symbol_tables().contains_key(k) ==> r == info.data_type
        &&& !function_found(def) ==> {
            &&& after.errors_of(k).len() > before.errors_of(k).len()
            &&& after.errors_of(k)[before.errors_of(k).len() as int] == (call_name_message(f.0@, def), f.1)
        }
        &&& function_found(def) && before.symbol_tables().contains_key(k) ==> {
            &&& after.symbol_tables().contains_key(k)
            &&& crate::analysis::references_of(after.symbol_tables()[k], f.0@).last() == (SymbolLocation {
                file: (file_id, file_version),
                start: f.1.start,
                end: f.1.end,
            })
        }
    })
    &&& exp.1.start <= exp.1.end ==> (exp.0 matches Expression::Var(v) ==> exists|mid: Files|
        #[trigger] crate::analysis::reference_recorded(
            before,
            mid,
            g0,
            v.0@,
            (SymbolLocation { file: (file_id, file_version), start: v.1.start, end: v.1.end }),
            cs,
        ) && type_checked(k, expected, r, exp.1, mid, after, g0, g1))
    &&& !(r is Error) && !(r is Generic) && !crate::generics::matches(g1.types(), g1.rank(), expected, r)
        ==> after.errors_of(k).last() == (mismatch_message(g1, expected, r), exp.1)
    &&& exp.1.start <= exp.1.end && !(r is Error) ==> exists|mid: Files, gm: GenericsMap|
        {
            &&& gm.wf()
            &&& #[trigger] type_checked(k, expected, r, exp.1, mid, after, gm, g1)
            &&& reports_nothing_itself(exp.0) ==> mid.errors() == before.errors() && gm == g0
        }
}

/// Whether a definition was found and is a function.
pub open spec fn function_found(def: Option<crate::analysis::SymbolInfoView>) -> bool {
    def matches Some(info) && info.symbol_type is Function
}

/// What a call reports of the name `name` where its definition `def` is
/// missing or is not a function.
pub open spec fn call_name_message(name: Seq<char>, def: Option<crate::analysis::SymbolInfoView>) -> Seq<char> {
    if def is None {
        name + " is not defined"@
    } else {
        name + " is not a function"@
    }
}

/// Whether an expression of this form reports no error of its own before
/// its type is checked: a literal number, boolean or `null`, `status` and
/// an expression that failed to parse.
pub open spec fn reports_nothing_itself(e: Expression) -> bool {
    ||| e is Number
    ||| e is Boolean
    ||| e is Null
    ||| e is Status
    ||| e is Error
}

/// The check that ends the analysis of an expression of type `r`, from the
/// files `mid` and the generic types `gm` that the analysis of its parts
/// left: where `r` does not match `expected`, the mismatch is reported over
/// `span` and nothing else changes; where it matches, no error is reported,
/// and a generic `r` is narrowed to `expected` unless that would make a
/// cycle.
pub open spec fn type_checked(
    k: (usize, i32),
    expected: Ty,
    r: Ty,
    span: Span,
    mid: Files,
    after: Files,
    gm: GenericsMap,
    g1: GenericsMap,
) -> bool {
    if !crate::generics::matches(gm.types(), gm.rank(), expected, r) {
        &&& after.symbol_tables() == mid.symbol_tables()
        &&& after.errors() == mid.errors().insert(
            k,
            mid.errors_of(k).push((mismatch_message(gm, expected, r), span)),
        )
        &&& g1 == gm
    } else {
        &&& after == mid
        &&& !(r is Generic) ==> g1 == gm
        &&& r matches Ty::Generic(id) ==> g1.types() == (if crate::generics::reaches(
            gm.types(),
            gm.rank(),
            expected,
            crate::generics::chain_end(gm.types(), gm.rank(), id),
        ) {
            gm.types()
        } else {
            crate::generics::constrained(gm.types(), gm.rank(), id, expected)
        })
    }
}

/// The type that array elements are expected to have: a number or a text.
pub open spec fn number_or_text() -> Ty {
    Ty::Union(seq![Ty::Number, Ty::Text])
}

/// What the analysis of an array literal with elements `els` does, through
/// the files `fs`, the generic types `gs` and the element types `ts`: each
/// element is analyzed in turn, as [`exp_analyzed`] says, where a number
/// or a text is expected; the array has the union of the element types as
/// [`crate::types::union_of`] makes it; and where that union has more than
/// one member, "Array must have elements of the same type" is the first
/// error reported after the elements, over the span of the array.
pub open spec fn array_analyzed(
    file_id: FileId,
    file_version: FileVersion,
    els: Seq<(Expression, Span)>,
    span: Span,
    before: Files,
    after: Files,
    g0: GenericsMap,
    g1: GenericsMap,
    r: Ty,
    fs: Seq<Files>,
    gs: Seq<GenericsMap>,
    ts: Seq<Ty>,
    cs: Seq<ContextView>,
) -> bool {
    let k = (file_id.0, file_version.0);
    let n = fs.last().errors_of(k).len();
    &&& fs.len() == els.len() + 1
    &&& gs.len() == els.len() + 1
    &&& ts.len() == els.len()
    &&& fs[0] == before
    &&& gs[0] == g0
    &&& g1 == gs.last()
    &&& forall|i: int|
        0 <= i < els.len() ==> #[trigger] exp_analyzed(
            file_id,
            file_version,
            els[i],
            number_or_text(),
            fs[i],
            fs[i + 1],
            gs[i],
            gs[i + 1],
            ts[i],
            cs,
        )
    &&& r == Ty::Array(Box::new(crate::types::union_of(ts)))
    &&& crate::types::union_of(ts) is Union ==> {
        &&& after.errors_of(k).len() > n
        &&& after.errors_of(k)[n as int] == ("Array must have elements of the same type"@, span)
    }
}

/// The message of a mismatch between the expected and the found type.
pub open spec fn mismatch_message(g: GenericsMap, expected: Ty, found: Ty) -> Seq<char> {
    "Expected type "@ + crate::generics::type_string(g.types(), g.rank(), expected)
        + ", found type "@ + crate::generics::type_string(g.types(), g.rank(), found)
}

/// Reports that `found` was found where `expected` was expected.
fn report_mismatch(
    files: &mut Files,
    file: &(FileId, FileVersion),
    g: &GenericsMap,
    expected: &DataType,
    found: &DataType,
    span: Span,
)
    requires
        g.wf(),
    ensures
        final(files).extends(old(files)),
        final(files).symbol_tables() == old(files).symbol_tables(),
        final(files).errors() == old(files).errors().insert(
            crate::files::file_key(*file),
            old(files).errors_of(crate::files::file_key(*file)).push(
                (mismatch_message(*g, expected@, found@), span),
            ),
        ),
{
    let mut msg = String::from_str("Expected type ");
    let e = expected.to_string(g);
    msg.append(e.as_str());
    msg.append(", found type ");
    let f = found.to_string(g);
    msg.append(f.as_str());
    files.report_error(file, msg.as_str(), span);
}

/// The type of an expression, as the analysis infers it, with its
/// effects: the symbols that the expression refers to are recorded, the
/// generic types it meets are narrowed, and the errors it holds are
/// reported. Where the type does not match `expected_type`, the mismatch
/// is reported over the span of the expression; where it matches and is a
/// generic id, that id is narrowed to `expected_type`.
///
/// An expression with an empty span has type `Error` and changes nothing.
/// An expression whose form fixes its type, as [`fixed_type`] says, has
/// that type.
#[verifier::rlimit(40)]
pub fn analyze_exp(
    file_id: FileId,
    file_version: FileVersion,
    exp: &(Expression, Span),
    expected_type: DataType,
    files: &mut Files,
    scoped_generic_types: &mut GenericsMap,
    contexts: &Vec<Context>,
) -> (r: DataType)
    requires
        old(scoped_generic_types).wf(),
    ensures
        final(files).extends(old(files)),
        generics_kept(*final(scoped_generic_types), *old(scoped_generic_types)),
        exp.1.start > exp.1.end ==> {
            &&& r@ == Ty::Error
            &&& final(files).errors() == old(files).errors()
            &&& final(files).symbol_tables() == old(files).symbol_tables()
            &&& final(scoped_generic_types).types() == old(scoped_generic_types).types()
        },
        exp.1.start <= exp.1.end && fixed_type(exp.0) is Some ==> r@ == fixed_type(exp.0)->0,
        static_type(*exp) matches Some(t) ==> r@ == t,
        exp.1.start <= exp.1.end && exp.0 is Array ==> r@ is Array,
        exp.1.start <= exp.1.end && exp.0 is Status ==> r@ == (if old(
            files,
        ).symbol_tables().contains_key((file_id.0, file_version.0)) {
            Ty::Number
        } else {
            Ty::Error
        }),
        exp.1.start <= exp.1.end ==> (exp.0 matches Expression::Var(v) ==> r@ == match definition_info(
            final(files).symbol_tables(),
            v.0@,
            (file_id.0, file_version.0),
            v.1.start,
        ) {
            Some(info) => info.data_type,
            None => Ty::Null,
        }),
        exp.1.start <= exp.1.end ==> (exp.0 matches Expression::FunctionInvocation(_, f, _, _) ==> {
            let def = definition_info(
                old(files).symbol_tables(),
                f.0@,
                (file_id.0, file_version.0),
                f.1.start,
            );
            &&& def is None ==> r@ == Ty::Null
            &&& def matches Some(info) ==> !(info.symbol_type is Function) ==> r@ == info.data_type
            &&& def matches Some(info) ==> old(files).symbol_tables().contains_key(
                (file_id.0, file_version.0),
            ) ==> r@ == info.data_type
        }),
        !(r@ is Error) && !(r@ is Generic) && !crate::generics::matches(
            final(scoped_generic_types).types(),
            final(scoped_generic_types).rank(),
            expected_type@,
            r@,
        ) ==> final(files).errors_of((file_id.0, file_version.0)).last() == (
            mismatch_message(*final(scoped_generic_types), expected_type@, r@),
            exp.1,
        ),
        exp_analyzed(
            file_id,
            file_version,
            *exp,
            expected_type@,
            *old(files),
            *final(files),
            *old(scoped_generic_types),
            *final(scoped_generic_types),
            r@,
            crate::analysis::contexts_view(contexts@),
        ),
        exp.1.start <= exp.1.end ==> (exp.0 matches Expression::Array(els) ==> exists|
            fs: Seq<Files>,
            gs: Seq<GenericsMap>,
            ts: Seq<Ty>,
        |
            array_analyzed(
                file_id,
                file_version,
                els@,
                exp.1,
                *old(files),
                *final(files),
                *old(scoped_generic_types),
                *final(scoped_generic_types),
                r@,
                fs,
                gs,
                ts,
                crate::analysis::contexts_view(contexts@),
            )),
    decreases exp, 2nat,
{
    let ghost g0 = *scoped_generic_types;
    let ghost mut arr_fs: Seq<Files> = Seq::empty();
    let ghost mut arr_gs: Seq<GenericsMap> = Seq::empty();
    let ghost mut arr_ts: Seq<Ty> = Seq::empty();
    let exp_span = exp.1;
    if exp_span.start > exp_span.end {
        proof {
            lemma_extends_refl(files);
        }
        return DataType::Error;
    }
    let file = (file_id, file_version);
    let ghost mut after_name: Files = *files;
    let ghost mut after_call: Files = *files;
    let ty: DataType = match &exp.0 {
        Expression::Var((name, name_span)) => {
            insert_symbol_reference(
                name.as_str(),
                files,
                &SymbolLocation { file, start: name_span.start, end: name_span.end },
                scoped_generic_types,
                contexts.as_slice(),
            );
            proof {
                after_name = *files;
            }
            match get_symbol_definition_info(files, name.as_str(), &file, name_span.start) {
                Some(info) => info.data_type,
                None => DataType::Null,
            }
        },
        Expression::Add(exp1, exp2) => {
            let ty = analyze_exp(
                file_id,
                file_version,
                &**exp1,
                DataType::Union(
                    vec![
                        DataType::Number,
                        DataType::Text,
                        DataType::Array(
                            Box::new(DataType::Union(vec![DataType::Number, DataType::Text])),
                        ),
                    ],
                ),
                files,
                scoped_generic_types,
                contexts,
            );
            let ghost mid = *files;
            let right_hand_ty = analyze_exp(
                file_id,
                file_version,
                &**exp2,
                ty.copy(),
                files,
                scoped_generic_types,
                contexts,
            );
            proof {
                lemma_extends_trans(old(files), &mid, files);
            }
            if let DataType::Generic(id) = ty {
                scoped_generic_types.constrain_acyclic(id, right_hand_ty.copy());
            }
            if !matches_type(&right_hand_ty, &ty, scoped_generic_types) {
                let ghost before = *files;
                report_mismatch(files, &file, scoped_generic_types, &right_hand_ty, &ty, exp1.1);
                proof {
                    lemma_extends_trans(old(files), &before, files);
                }
            }
            ty
        },
        Expression::And(exp1, _, exp2) => {
            analyze_exp(file_id, file_version, &**exp1, DataType::Boolean, files, scoped_generic_types, contexts);
            let ghost mid = *files;
            analyze_exp(file_id, file_version, &**exp2, DataType::Boolean, files, scoped_generic_types, contexts);
            proof {
                lemma_extends_trans(old(files), &mid, files);
            }
            DataType::Boolean
        },
        Expression::Or(exp1, _, exp2) => {
            analyze_exp(file_id, file_version, &**exp1, DataType::Boolean, files, scoped_generic_types, contexts);
            let ghost mid = *files;
            analyze_exp(file_id, file_version, &**exp2, DataType::Boolean, files, scoped_generic_types, contexts);
            proof {
                lemma_extends_trans(old(files), &mid, files);
            }
            DataType::Boolean
        },
        Expression::Divide(exp1, exp2) => {
            analyze_exp(file_id, file_version, &**exp1, DataType::Number, files, scoped_generic_types, contexts);
            let ghost mid = *files;
            analyze_exp(file_id, file_version, &**exp2, DataType::Number, files, scoped_generic_types, contexts);
            proof {
                lemma_extends_trans(old(files), &mid, files);
            }
            DataType::Number
        },
        Expression::Multiply(exp1, exp2) => {
            analyze_exp(file_id, file_version, &**exp1, DataType::Number, files, scoped_generic_types, contexts);
            let ghost mid = *files;
            analyze_exp(file_id, file_version, &**exp2, DataType::Number, files, scoped_generic_types, contexts);
            proof {
                lemma_extends_trans(old(files), &mid, files);
            }
            DataType::Number
        },
        Expression::Subtract(exp1, exp2) => {
            analyze_exp(file_id, file_version, &**exp1, DataType::Number, files, scoped_generic_types, contexts);
            let ghost mid = *files;
            analyze_exp(file_id, file_version, &**exp2, DataType::Number, files, scoped_generic_types, contexts);
            proof {
                lemma_extends_trans(old(files), &mid, files);
            }
            DataType::Number
        },
        Expression::Modulo(exp1, exp2) => {
            analyze_exp(file_id, file_version, &**exp1, DataType::Number, files, scoped_generic_types, contexts);
            let ghost mid = *files;
            analyze_exp(file_id, file_version, &**exp2, DataType::Number, files, scoped_generic_types, contexts);
            proof {
                lemma_extends_trans(old(files), &mid, files);
            }
            DataType::Number
        },
        Expression::Eq(exp1, exp2) => {
            analyze_exp(file_id, file_version, &**exp1, DataType::Any, files, scoped_generic_types, contexts);
            let ghost mid = *files;
            analyze_exp(file_id, file_version, &**exp2, DataType::Any, files, scoped_generic_types, contexts);
            proof {
                lemma_extends_trans(old(files), &mid, files);
            }
            DataType::Boolean
        },
        Expression::Neq(exp1, exp2) => {
            analyze_exp(file_id, file_version, &**exp1, DataType::Any, files, scoped_generic_types, contexts);
            let ghost mid = *files;
            analyze_exp(file_id, file_version, &**exp2, DataType::Any, files, scoped_generic_types, contexts);
            proof {
                lemma_extends_trans(old(files), &mid, files);
            }
            DataType::Boolean
        },
        Expression::Ge(exp1, exp2) => {
            analyze_exp(file_id, file_version, &**exp1, DataType::Number, files, scoped_generic_types, contexts);
            let ghost mid = *files;
            analyze_exp(file_id, file_version, &**exp2, DataType::Number, files, scoped_generic_types, contexts);
            proof {
                lemma_extends_trans(old(files), &mid, files);
            }
            DataType::Boolean
        },
        Expression::Gt(exp1, exp2) => {
            analyze_exp(file_id, file_version, &**exp1, DataType::Number, files, scoped_generic_types, contexts);
            let ghost mid = *files;
            analyze_exp(file_id, file_version, &**exp2, DataType::Number, files, scoped_generic_types, contexts);
            proof {
                lemma_extends_trans(old(files), &mid, files);
            }
            DataType::Boolean
        },
        Expression::Le(exp1, exp2) => {
            analyze_exp(file_id, file_version, &**exp1, DataType::Number, files, scoped_generic_types, contexts);
            let ghost mid = *files;
            analyze_exp(file_id, file_version, &**exp2, DataType::Number, files, scoped_generic_types, contexts);
            proof {
                lemma_extends_trans(old(files), &mid, files);
            }
            DataType::Boolean
        },
        Expression::Lt(exp1, exp2) => {
            analyze_exp(file_id, file_version, &**exp1, DataType::Number, files, scoped_generic_types, contexts);
            let ghost mid = *files;
            analyze_exp(file_id, file_version, &**exp2, DataType::Number, files, scoped_generic_types, contexts);
            proof {
                lemma_extends_trans(old(files), &mid, files);
            }
            DataType::Boolean
        },
        Expression::Range(exp1, exp2) => {
            analyze_exp(file_id, file_version, &**exp1, DataType::Number, files, scoped_generic_types, contexts);
            let ghost mid = *files;
            analyze_exp(file_id, file_version, &**exp2, DataType::Number, files, scoped_generic_types, contexts);
            proof {
                lemma_extends_trans(old(files), &mid, files);
            }
            let t = DataType::Array(Box::new(DataType::Number));
            assert(t@ == Ty::Array(Box::new(Ty::Number))) by {
                assert(DataType::Number@ == Ty::Number);
            }
            t
        },
        Expression::Is(inner, _, _) => {
            analyze_exp(file_id, file_version, &**inner, DataType::Any, files, scoped_generic_types, contexts);
            DataType::Boolean
        },
        Expression::Cast(inner, _, (ty, _)) => {
            analyze_exp(file_id, file_version, &**inner, DataType::Any, files, scoped_generic_types, contexts);
            ty.copy()
        },
        Expression::Nameof(_, inner) => {
            analyze_exp(file_id, file_version, &**inner, DataType::Any, files, scoped_generic_types, contexts);
            DataType::Text
        },
        Expression::Neg(_, inner) => {
            analyze_exp(file_id, file_version, &**inner, DataType::Number, files, scoped_generic_types, contexts);
            DataType::Number
        },
        Expression::Not(_, inner) => {
            analyze_exp(file_id, file_version, &**inner, DataType::Boolean, files, scoped_generic_types, contexts);
            DataType::Boolean
        },
        Expression::Parentheses(inner) => {
            analyze_exp(file_id, file_version, &**inner, DataType::Any, files, scoped_generic_types, contexts)
        },
        Expression::Number(_) => {
            proof {
                lemma_extends_refl(files);
            }
            DataType::Number
        },
        Expression::Boolean(_) => {
            proof {
                lemma_extends_refl(files);
            }
            DataType::Boolean
        },
        Expression::Null => {
            proof {
                lemma_extends_refl(files);
            }
            DataType::Null
        },
        Expression::Error => {
            proof {
                lemma_extends_refl(files);
            }
            DataType::Any
        },
        Expression::Status => {
            let info = SymbolInfo {
                name: String::from_str("status"),
                symbol_type: SymbolType::Variable(VariableSymbol { is_const: false }),
                data_type: DataType::Number,
                is_definition: false,
                undefined: false,
                span: exp_span,
                contexts: copy_contexts(contexts.as_slice()),
            };
            if !files.record_symbol((file_id.0, file_version.0), exp_span.start, exp_span.end, info) {
                return DataType::Error;
            }
            DataType::Number
        },
        Expression::Text(int_text) => {
            let ghost f0 = *files;
            proof {
                lemma_extends_refl(files);
            }
            let mut i: usize = 0;
            #[verifier::loop_isolation(false)]
            while i < int_text.len()
                invariant
                    i <= int_text.len(),
                    files.extends(&f0),
                    generics_kept(*scoped_generic_types, g0),
                decreases int_text.len() - i,
            {
                if let InterpolatedText::Expression(inner) = &int_text[i].0 {
                    let ghost mid = *files;
                    analyze_exp(file_id, file_version, &**inner, DataType::Any, files, scoped_generic_types, contexts);
                    proof {
                        lemma_extends_trans(&f0, &mid, files);
                    }
                }
                i += 1;
            }
            DataType::Text
        },
        Expression::Command(_, inter_cmd, failure) => {
            let ghost f0 = *files;
            proof {
                lemma_extends_refl(files);
            }
            let mut i: usize = 0;
            #[verifier::loop_isolation(false)]
            while i < inter_cmd.len()
                invariant
                    i <= inter_cmd.len(),
                    files.extends(&f0),
                    generics_kept(*scoped_generic_types, g0),
                decreases inter_cmd.len() - i,
            {
                if let InterpolatedCommand::Expression(inner) = &inter_cmd[i].0 {
                    let ghost mid = *files;
                    analyze_exp(file_id, file_version, &**inner, DataType::Any, files, scoped_generic_types, contexts);
                    proof {
                        lemma_extends_trans(&f0, &mid, files);
                    }
                }
                i += 1;
            }
            if let Some(failure) = failure {
                let ghost mid = *files;
                analyze_failure_handler(file_id, file_version, failure, files, scoped_generic_types, contexts);
                proof {
                    lemma_extends_trans(&f0, &mid, files);
                }
            }
            DataType::Text
        },
        Expression::Ternary(cond, _, if_true, _, if_false) => {
            analyze_exp(file_id, file_version, &**cond, DataType::Boolean, files, scoped_generic_types, contexts);
            let ghost mid = *files;
            let true_ty = analyze_exp(file_id, file_version, &**if_true, expected_type.copy(), files, scoped_generic_types, contexts);
            let ghost mid2 = *files;
            let false_ty = analyze_exp(file_id, file_version, &**if_false, expected_type.copy(), files, scoped_generic_types, contexts);
            proof {
                lemma_extends_trans(old(files), &mid, &mid2);
                lemma_extends_trans(old(files), &mid2, files);
            }
            let v = vec![true_ty, false_ty];
            proof {
                crate::types::lemma_view_types(v@);
                assert(crate::types::view_types(v@) =~= seq![v@[0]@, v@[1]@]);
            }
            make_union_type(v)
        },
        Expression::Array(elements) => {
            let ghost f0 = *files;
            proof {
                lemma_extends_refl(files);
            }
            let mut types: Vec<DataType> = Vec::new();
            let mut i: usize = 0;
            proof {
                arr_fs = seq![*files];
                arr_gs = seq![*scoped_generic_types];
            }
            #[verifier::loop_isolation(false)]
            while i < elements.len()
                invariant
                    i <= elements.len(),
                    files.extends(&f0),
                    generics_kept(*scoped_generic_types, g0),
                    arr_fs.len() == i + 1,
                    arr_gs.len() == i + 1,
                    arr_fs[0] == f0,
                    arr_gs[0] == g0,
                    arr_fs.last() == *files,
                    arr_gs.last() == *scoped_generic_types,
                    crate::types::view_types(types@) == arr_ts,
                    types@.len() == i,
                    arr_ts.len() == i,
                    forall|j: int|
                        0 <= j < i ==> #[trigger] exp_analyzed(
                            file_id,
                            file_version,
                            elements@[j],
                            number_or_text(),
                            arr_fs[j],
                            arr_fs[j + 1],
                            arr_gs[j],
                            arr_gs[j + 1],
                            arr_ts[j],
                            crate::analysis::contexts_view(contexts@),
                        ),
                decreases elements.len() - i,
            {
                let ghost mid = *files;
                let ghost gmid = *scoped_generic_types;
                let expected = DataType::Union(vec![DataType::Number, DataType::Text]);
                proof {
                    crate::types::lemma_view_types(seq![DataType::Number, DataType::Text]);
                    assert(crate::types::view_types(seq![DataType::Number, DataType::Text]) =~= seq![
                        Ty::Number,
                        Ty::Text,
                    ]);
                    assert(expected@ == number_or_text());
                }
                let t = analyze_exp(
                    file_id,
                    file_version,
                    &elements[i],
                    expected,
                    files,
                    scoped_generic_types,
                    contexts,
                );
                proof {
                    lemma_extends_trans(&f0, &mid, files);
                    crate::types::lemma_view_types_push(types@, t);
                    let old_fs = arr_fs;
                    let old_gs = arr_gs;
                    let old_ts = arr_ts;
                    arr_fs = arr_fs.push(*files);
                    arr_gs = arr_gs.push(*scoped_generic_types);
                    arr_ts = arr_ts.push(t@);
                    assert(arr_fs[i as int] == mid);
                    assert(arr_gs[i as int] == gmid);
                    assert forall|j: int| 0 <= j < i + 1 implies #[trigger] exp_analyzed(
                        file_id,
                        file_version,
                        elements@[j],
                        number_or_text(),
                        arr_fs[j],
                        arr_fs[j + 1],
                        arr_gs[j],
                        arr_gs[j + 1],
                        arr_ts[j],
                        crate::analysis::contexts_view(contexts@),
                    ) by {
                        if j < i {
                            assert(arr_fs[j] == old_fs[j]);
                            assert(arr_fs[j + 1] == old_fs[j + 1]);
                            assert(arr_gs[j] == old_gs[j]);
                            assert(arr_gs[j + 1] == old_gs[j + 1]);
                            assert(arr_ts[j] == old_ts[j]);
                        } else {
                            assert(arr_fs[j + 1] == *files);
                            assert(arr_gs[j + 1] == *scoped_generic_types);
                            assert(arr_ts[j] == t@);
                        }
                    }
                }
                types.push(t);
                i += 1;
            }
            let array_type = make_union_type(types);
            let ghost before_report = *files;
            if let DataType::Union(_) = array_type {
                let ghost mid = *files;
                files.report_error(&file, "Array must have elements of the same type", exp_span);
                proof {
                    lemma_extends_trans(&f0, &mid, files);
                }
            }
            proof {
                crate::types::lemma_view_form(array_type);
            }
            DataType::Array(Box::new(array_type))
        },
        Expression::FunctionInvocation(_, (name, name_span), args, failure) => {
            let ghost f0 = *files;
            proof {
                lemma_extends_refl(files);
            }
            let fun_symbol = get_symbol_definition_info(files, name.as_str(), &file, name_span.start);
            let mut expected_types: Vec<(DataType, bool)> = Vec::new();
            match &fun_symbol {
                Some(info) => match &info.symbol_type {
                    SymbolType::Function(f) => {
                        let mut j: usize = 0;
                        while j < f.arguments.len()
                            invariant
                                j <= f.arguments.len(),
                            decreases f.arguments.len() - j,
                        {
                            expected_types.push((f.arguments[j].0.data_type.copy(), f.arguments[j].0.is_ref));
                            j += 1;
                        }
                    },
                    _ => {
                        let mut msg = name.clone();
                        msg.append(" is not a function");
                        files.report_error(&file, msg.as_str(), *name_span);
                    },
                },
                None => {
                    let mut msg = name.clone();
                    msg.append(" is not defined");
                    files.report_error(&file, msg.as_str(), *name_span);
                },
            }
            let ghost f_named = *files;
            proof {
                lemma_extends_refl(files);
                after_name = *files;
                let kk = (file_id.0, file_version.0);
                let def = definition_info(f0.symbol_tables(), name@, kk, name_span.start);
                assert(!function_found(def) ==> (files.errors_of(kk).len() > f0.errors_of(kk).len()
                    && files.errors_of(kk)[f0.errors_of(kk).len() as int] == (call_name_message(name@, def), *name_span)));
            }
            let mut idx: usize = 0;
            #[verifier::loop_isolation(false)]
            while idx < args.len()
                invariant
                    idx <= args.len(),
                    files.extends(&f0),
                    files.extends(&f_named),
                    generics_kept(*scoped_generic_types, g0),
                decreases args.len() - idx,
            {
                let ghost mid = *files;
                if idx < expected_types.len() {
                    let ty = expected_types[idx].0.copy();
                    let is_ref = expected_types[idx].1;
                    let exp_ty = analyze_exp(file_id, file_version, &args[idx], ty.copy(), files, scoped_generic_types, contexts);
                    proof {
                        lemma_extends_trans(&f0, &mid, files);
                        lemma_extends_trans(&f_named, &mid, files);
                    }
                    if is_ref {
                        let ghost mid2 = *files;
                        match &args[idx].0 {
                            Expression::Var((var_name, var_span)) => {
                                if let Some(var) = get_symbol_definition_info(files, var_name.as_str(), &file, var_span.start) {
                                    if let SymbolType::Variable(var_symbol) = &var.symbol_type {
                                        if var_symbol.is_const {
                                            files.report_error(&file, "Cannot modify a constant variable", *var_span);
                                        }
                                    }
                                }
                            },
                            _ => {
                                files.report_error(&file, "Cannot pass a non-variable as a reference", args[idx].1);
                            },
                        }
                        proof {
                            lemma_extends_refl(&mid2);
                            lemma_extends_trans(&f0, &mid2, files);
                            lemma_extends_trans(&f_named, &mid2, files);
                        }
                    }
                    if let DataType::Generic(id) = ty {
                        scoped_generic_types.constrain_acyclic(id, exp_ty.copy());
                    }
                } else {
                    let mut msg = String::from_str("Function takes only ");
                    let n = decimal_string(expected_types.len());
                    msg.append(n.as_str());
                    msg.append(" arguments");
                    files.report_error(&file, msg.as_str(), args[idx].1);
                    proof {
                        lemma_extends_trans(&f0, &mid, files);
                        lemma_extends_trans(&f_named, &mid, files);
                    }
                }
                idx += 1;
            }
            if expected_types.len() > args.len() {
                let ghost mid = *files;
                let mut msg = String::from_str("Function takes ");
                let n = decimal_string(expected_types.len());
                msg.append(n.as_str());
                msg.append(" arguments");
                files.report_error(&file, msg.as_str(), *name_span);
                proof {
                    lemma_extends_trans(&f0, &mid, files);
                    lemma_extends_trans(&f_named, &mid, files);
                }
            }
            if let Some(failure) = failure {
                let ghost mid = *files;
                analyze_failure_handler(file_id, file_version, failure, files, scoped_generic_types, contexts);
                proof {
                    lemma_extends_trans(&f0, &mid, files);
                    lemma_extends_trans(&f_named, &mid, files);
                }
            }
            match fun_symbol {
                Some(info) => match &info.symbol_type {
                    SymbolType::Function(f) => {
                        let mut last_end = name_span.end;
                        let mut fargs: Vec<(ArgSymbol, Span)> = Vec::new();
                        let mut j: usize = 0;
                        while j < f.arguments.len()
                            invariant
                                j <= f.arguments.len(),
                                scoped_generic_types.wf(),
                            decreases f.arguments.len() - j,
                        {
                            let arg_span = if j < args.len() {
                                args[j].1
                            } else {
                                Span { start: last_end, end: exp_span.end }
                            };
                            last_end = arg_span.end;
                            let arg = &f.arguments[j].0;
                            fargs.push(
                                (
                                    ArgSymbol {
                                        name: arg.name.clone(),
                                        data_type: scoped_generic_types.deref_type(&arg.data_type),
                                        is_optional: false,
                                        is_ref: arg.is_ref,
                                    },
                                    arg_span,
                                ),
                            );
                            j += 1;
                        }
                        let call_info = SymbolInfo {
                            name: name.clone(),
                            symbol_type: SymbolType::Function(
                                FunctionSymbol {
                                    arguments: fargs,
                                    is_public: f.is_public,
                                    compiler_flags: crate::analysis::copy_list(&f.compiler_flags),
                                    docs: crate::analysis::copy_opt_string(&f.docs),
                                },
                            ),
                            data_type: scoped_generic_types.deref_type(&info.data_type),
                            is_definition: false,
                            undefined: false,
                            span: exp_span,
                            contexts: copy_contexts(contexts.as_slice()),
                        };
                        let ghost mid = *files;
                        let recorded = files.record_call(
                            (file_id.0, file_version.0),
                            exp_span.start,
                            exp_span.end,
                            call_info,
                            name,
                            SymbolLocation { file, start: name_span.start, end: name_span.end },
                        );
                        proof {
                            lemma_extends_trans(&f0, &mid, files);
                            lemma_extends_trans(&f_named, &mid, files);
                            after_call = *files;
                        }
                        if !recorded {
                            return DataType::Error;
                        }
                        info.data_type
                    },
                    _ => info.data_type,
                },
                None => DataType::Null,
            }
        },
    };
    let ghost before_check = *files;
    let ghost g_before_check = *scoped_generic_types;
    proof {
        if reports_nothing_itself(exp.0) && !(ty@ is Error) {
            assert(before_check.errors() == old(files).errors() && g_before_check == g0);
        }
    }
    if !matches_type(&expected_type, &ty, scoped_generic_types) {
        report_mismatch(files, &file, scoped_generic_types, &expected_type, &ty, exp_span);
        proof {
            lemma_extends_trans(old(files), &before_check, files);
        }
    } else {
        proof {
            lemma_extends_refl(files);
        }
        if let DataType::Generic(id) = ty {
            scoped_generic_types.constrain_acyclic(id, expected_type.copy());
        }
    }
    proof {
        assert(type_checked(
            (file_id.0, file_version.0),
            expected_type@,
            ty@,
            exp_span,
            before_check,
            *files,
            g_before_check,
            *scoped_generic_types,
        ));
        if let Expression::FunctionInvocation(_, f, _, _) = &exp.0 {
            let k = (file_id.0, file_version.0);
            let def = definition_info(old(files).symbol_tables(), f.0@, k, f.1.start);
            lemma_extends_trans(&after_name, &before_check, files);
            assert(crate::files::prefix_of(after_name.errors_of(k), files.errors_of(k)));
            if function_found(def) && old(files).symbol_tables().contains_key(k) {
                assert(after_call == before_check);
                assert(files.symbol_tables() == before_check.symbol_tables());
            }
        }
        if let Expression::Var(v) = &exp.0 {
            assert(after_name == before_check && g_before_check == g0);
            assert(crate::analysis::reference_recorded(
                *old(files),
                before_check,
                g0,
                v.0@,
                SymbolLocation { file: (file_id, file_version), start: v.1.start, end: v.1.end },
                crate::analysis::contexts_view(contexts@),
            ));
        }
    }
    proof {
        if let Expression::Array(els) = &exp.0 {
            let k = (file_id.0, file_version.0);
            let n = arr_fs.last().errors_of(k).len();
            if crate::types::union_of(arr_ts) is Union {
                assert(crate::files::prefix_of(before_check.errors_of(k), files.errors_of(k)));
                assert(files.errors_of(k)[n as int] == before_check.errors_of(k)[n as int]);
            }
            assert(array_analyzed(
                file_id,
                file_version,
                els@,
                exp.1,
                *old(files),
                *files,
                *old(scoped_generic_types),
                *scoped_generic_types,
                ty@,
                arr_fs,
                arr_gs,
                arr_ts,
                crate::analysis::contexts_view(contexts@),
            ));
        }
    }
    ty
}


/// The error that a statement reports of itself where it stands out of
/// place in `cs`: a `return` outside of a function, a
/// `fail` without a code outside of a function and the main block, and a
/// `break` or a `continue` outside of a loop; none for any other
/// statement.
pub open spec fn misplaced_message(s: Statement, cs: Seq<ContextView>) -> Option<Seq<char>> {
    match s {
        Statement::Return(_, _) => if in_function(cs) {
            None
        } else {
            Some("Return statement outside of function"@)
        },
        Statement::Fail(_, None) => if in_function_or_main(cs) {
            None
        } else {
            Some("Fail statements can only be used inside of functions or the main block"@)
        },
        Statement::Break => if in_loop(cs) {
            None
        } else {
            Some("Break statement outside of loop"@)
        },
        Statement::Continue => if in_loop(cs) {
            None
        } else {
            Some("Continue statement outside of loop"@)
        },
        _ => None,
    }
}

/// Analyzes the statements of a failure handler in order, each in the
/// contexts given and with its definitions in force up to the end of the
/// handler; propagation analyzes nothing. Each statement of the handler
/// that stands out of place, as [`misplaced_message`] says, is reported
/// over its span.
pub fn analyze_failure_handler(
    file_id: FileId,
    file_version: FileVersion,
    failure: &(FailureHandler, Span),
    files: &mut Files,
    scoped_generic_types: &mut GenericsMap,
    contexts: &Vec<Context>,
)
    requires
        old(scoped_generic_types).wf(),
    ensures
        final(files).extends(old(files)),
        generics_kept(*final(scoped_generic_types), *old(scoped_generic_types)),
        failure.0 is Propagate ==> {
            &&& final(files).errors() == old(files).errors()
            &&& final(files).symbol_tables() == old(files).symbol_tables()
            &&& final(scoped_generic_types).types() == old(scoped_generic_types).types()
        },
        failure.0 matches FailureHandler::Handle(_, stmnts) ==> forall|i: int|
            0 <= i < stmnts@.len() ==> (#[trigger] misplaced_message(
                stmnts@[i].0,
                crate::analysis::contexts_view(contexts@),
            ) matches Some(m) ==> final(files).errors_of((file_id.0, file_version.0)).contains(
                (m, stmnts@[i].1),
            )),
        failure.0 matches FailureHandler::Handle(_, stmnts) ==> exists|
            fs: Seq<Files>,
            gs: Seq<GenericsMap>,
            rs: Seq<Option<Ty>>,
        |
            #![trigger stmnts_analyzed(file_id, file_version, stmnts@, Some(failure.1.end), crate::analysis::contexts_view(contexts@), fs, gs, rs)]
            {
                &&& stmnts_analyzed(
                    file_id,
                    file_version,
                    stmnts@,
                    Some(failure.1.end),
                    crate::analysis::contexts_view(contexts@),
                    fs,
                    gs,
                    rs,
                )
                &&& fs[0] == *old(files)
                &&& fs.last() == *final(files)
                &&& gs[0] == *old(scoped_generic_types)
                &&& gs.last() == *final(scoped_generic_types)
            },
    decreases failure, 2nat,
{
    let ghost g0 = *scoped_generic_types;
    let ghost k = (file_id.0, file_version.0);
    let ghost cs = crate::analysis::contexts_view(contexts@);
    let ghost mut tr_fs: Seq<Files> = seq![*files];
    let ghost mut tr_gs: Seq<GenericsMap> = seq![*scoped_generic_types];
    let ghost mut tr_rs: Seq<Option<Ty>> = Seq::empty();
    proof {
        lemma_extends_refl(files);
    }
    if let FailureHandler::Handle(_, stmnts) = &failure.0 {
        let ghost f0 = *files;
        let mut i: usize = 0;
        #[verifier::loop_isolation(false)]
        while i < stmnts.len()
            invariant
                i <= stmnts.len(),
                files.extends(&f0),
                f0 == *old(files),
                generics_kept(*scoped_generic_types, g0),
                tr_fs.len() == i + 1,
                tr_gs.len() == i + 1,
                tr_rs.len() == i,
                tr_fs[0] == f0,
                tr_gs[0] == g0,
                tr_fs.last() == *files,
                tr_gs.last() == *scoped_generic_types,
                forall|jj: int|
                    0 <= jj < i ==> #[trigger] stmnt_analyzed(
                        file_id,
                        file_version,
                        stmnts@[jj],
                        scope_of(Some(failure.1.end), stmnts@[jj]),
                        cs,
                        tr_fs[jj],
                        tr_fs[jj + 1],
                        tr_gs[jj],
                        tr_gs[jj + 1],
                        tr_rs[jj],
                    ),
                forall|j: int|
                    0 <= j < i ==> (#[trigger] misplaced_message(stmnts@[j].0, cs) matches Some(m)
                        ==> files.errors_of(k).contains((m, stmnts@[j].1))),
            decreases stmnts.len() - i,
        {
            let ghost mid = *files;
            let ghost gmid = *scoped_generic_types;
            let result = analyze_stmnt(file_id, file_version, &stmnts[i], files, failure.1.end, scoped_generic_types, contexts);
            proof {
                let old_fs = tr_fs;
                let old_gs = tr_gs;
                let old_rs = tr_rs;
                tr_fs = tr_fs.push(*files);
                tr_gs = tr_gs.push(*scoped_generic_types);
                tr_rs = tr_rs.push(opt_ty(result));
                assert forall|jj: int| 0 <= jj < i + 1 implies #[trigger] stmnt_analyzed(
                    file_id,
                    file_version,
                    stmnts@[jj],
                    scope_of(Some(failure.1.end), stmnts@[jj]),
                    cs,
                    tr_fs[jj],
                    tr_fs[jj + 1],
                    tr_gs[jj],
                    tr_gs[jj + 1],
                    tr_rs[jj],
                ) by {
                    if jj < i {
                        assert(tr_fs[jj] == old_fs[jj] && tr_fs[jj + 1] == old_fs[jj + 1]);
                        assert(tr_gs[jj] == old_gs[jj] && tr_gs[jj + 1] == old_gs[jj + 1]);
                        assert(tr_rs[jj] == old_rs[jj]);
                    } else {
                        assert(tr_fs[jj] == mid && tr_fs[jj + 1] == *files);
                        assert(tr_gs[jj] == gmid && tr_gs[jj + 1] == *scoped_generic_types);
                    }
                }
                lemma_extends_trans(&f0, &mid, files);
                assert forall|j: int|
                    0 <= j < i + 1 implies (#[trigger] misplaced_message(stmnts@[j].0, cs) matches Some(m)
                    ==> files.errors_of(k).contains((m, stmnts@[j].1))) by {
                    if let Some(m) = misplaced_message(stmnts@[j].0, cs) {
                        if j < i {
                            lemma_prefix_keeps(mid.errors_of(k), files.errors_of(k), (m, stmnts@[j].1));
                        } else {
                            let e = files.errors_of(k);
                            assert(e[mid.errors_of(k).len() as int] == (m, stmnts@[j].1));
                        }
                    }
                }
            }
            i += 1;
        }
        proof {
            assert(stmnts_analyzed(
                file_id,
                file_version,
                stmnts@,
                Some(failure.1.end),
                cs,
                tr_fs,
                tr_gs,
                tr_rs,
            ));
        }
    }
}

/// A statement that yields no return type whatever its parts are.
pub open spec fn yields_nothing(s: Statement) -> bool {
    match s {
        Statement::Block(_) => false,
        Statement::IfChain(_, _) => false,
        Statement::IfCondition(_, _, _, _) => false,
        Statement::InfiniteLoop(_, _) => false,
        Statement::IterLoop(_, _, _, _, _) => false,
        Statement::Return(_, _) => false,
        _ => true,
    }
}

/// The view of an optional type.
pub open spec fn opt_ty(r: Option<DataType>) -> Option<Ty> {
    match r {
        Some(t) => Some(t@),
        None => None,
    }
}

/// What the analysis of a statement states of its effects and of the type
/// `r` that it returns, where `before` and `after` are the files before and
/// after it, `g0` and `g1` the scoped generic types, and `cs` its contexts:
/// the clauses of [`analyze_stmnt`], and for a `return` with a value, that
/// the value is analyzed, as [`exp_analyzed`] says, where anything is
/// expected, after the report of a `return` outside of a function, and
/// that its type is what the statement returns.
pub open spec fn stmnt_analyzed(
    file_id: FileId,
    file_version: FileVersion,
    stmnt: (Statement, Span),
    scope_end: usize,
    cs: Seq<ContextView>,
    before: Files,
    after: Files,
    g0: GenericsMap,
    g1: GenericsMap,
    r: Option<Ty>,
) -> bool {
    &&& (after.extends(&before))
    &&& (generics_kept(g1, g0))
    &&& (yields_nothing(stmnt.0) ==> r is None)
    &&& (stmnt.0 matches Statement::Return(_, None) ==> r == Some(Ty::Null))
    &&& (stmnt.0 matches Statement::Return(_, Some(_)) ==> r is Some)
    &&& (stmnt.0 matches Statement::Return(_, Some(e)) ==> (static_type(*e) matches Some(t) ==> r == Some(t)))
    &&& (stmnt.0 matches Statement::VariableInit(_, v, _) ==> (v.1.start < v.1.end && stmnt.1.end <= scope_end
            ==> variable_declared(
            &after,
            (file_id.0, file_version.0),
            (file_id, file_version),
            v,
            stmnt.1,
            false,
            cs,
        )))
    &&& (stmnt.0 matches Statement::ConstInit(_, v, _) ==> (v.1.start < v.1.end && stmnt.1.end <= scope_end
            ==> variable_declared(
            &after,
            (file_id.0, file_version.0),
            (file_id, file_version),
            v,
            stmnt.1,
            true,
            cs,
        )))
    &&& (stmnt.0 matches Statement::VariableInit(_, v, (VariableInitType::DataType(t), _)) ==> (v.1.start
            < v.1.end && stmnt.1.end <= scope_end ==> (crate::files::symbol_at(
            after.symbol_tables()[(file_id.0, file_version.0)],
            v.1.start,
        ) matches Some(info) && info.data_type == crate::generics::deref(
            g0.types(),
            g0.rank(),
            g0.inferred_ids(),
            t.0@,
        ))))
    &&& (number_shorthand(stmnt.0) matches Some((v, message)) ==> ({
            let k = (file_id.0, file_version.0);
            let g = g0;
            let t = variable_type(before.symbol_tables(), v.0@, k, v.1.start);
            &&& !crate::generics::matches(g.types(), g.rank(), Ty::Number, t) ==> {
                &&& after.errors_of(k).len() > before.errors_of(k).len()
                &&& after.errors_of(k)[before.errors_of(k).len() as int] == (
                    message + crate::generics::type_string(g.types(), g.rank(), t),
                    v.1,
                )
            }
            &&& v.1.start <= v.1.end && before.symbol_tables().contains_key(k) ==> {
                &&& after.symbol_tables().contains_key(k)
                &&& crate::analysis::references_of(after.symbol_tables()[k], v.0@).last()
                    == SymbolLocation { file: (file_id, file_version), start: v.1.start, end: v.1.end }
            }
        }))
    &&& (misplaced_message(stmnt.0, cs) matches Some(m) ==> {
            let k = (file_id.0, file_version.0);
            &&& after.errors_of(k).len() > before.errors_of(k).len()
            &&& after.errors_of(k)[before.errors_of(k).len() as int] == (m, stmnt.1)
        })
    &&& (stmnt.0 matches Statement::Return(_, None) ==> {
            let k = (file_id.0, file_version.0);
            &&& after.symbol_tables() == before.symbol_tables()
            &&& after.errors() == if in_function(cs) {
                before.errors()
            } else {
                before.errors().insert(
                    k,
                    before.errors_of(k).push(("Return statement outside of function"@, stmnt.1)),
                )
            }
        })
    &&& (stmnt.0 matches Statement::Fail(_, None) ==> {
            let k = (file_id.0, file_version.0);
            &&& after.symbol_tables() == before.symbol_tables()
            &&& after.errors() == if in_function_or_main(
                cs,
            ) {
                before.errors()
            } else {
                before.errors().insert(
                    k,
                    before.errors_of(k).push(
                        (
                            "Fail statements can only be used inside of functions or the main block"@,
                            stmnt.1,
                        ),
                    ),
                )
            }
        })
    &&& ((stmnt.0 is Break || stmnt.0 is Continue) ==> {
            let k = (file_id.0, file_version.0);
            &&& after.symbol_tables() == before.symbol_tables()
            &&& g1.types() == g0.types()
            &&& after.errors() == if in_loop(cs) {
                before.errors()
            } else {
                before.errors().insert(
                    k,
                    before.errors_of(k).push(
                        (
                            if stmnt.0 is Break {
                                "Break statement outside of loop"@
                            } else {
                                "Continue statement outside of loop"@
                            },
                            stmnt.1,
                        ),
                    ),
                )
            }
        })
    &&& (stmnt.0 matches Statement::Return(_, Some(e)) ==> exists|mid: Files|
        #![trigger mid.errors()]
        {
            let k = (file_id.0, file_version.0);
            &&& in_function(cs) ==> mid == before
            &&& !in_function(cs) ==> mid.errors() == before.errors().insert(
                k,
                before.errors_of(k).push(("Return statement outside of function"@, stmnt.1)),
            ) && mid.symbol_tables() == before.symbol_tables() && mid.extends(&before)
            &&& r matches Some(t) && exp_analyzed(file_id, file_version, *e, Ty::Any, mid, after, g0, g1, t, cs)
        })
    &&& (stmnt.0 matches Statement::Expression(e) ==> exists|t: Ty|
        #[trigger] exp_analyzed(file_id, file_version, *e, Ty::Any, before, after, g0, g1, t, cs))
    &&& (stmnt.0 matches Statement::Echo(_, e) ==> exists|t: Ty|
        #[trigger] exp_analyzed(file_id, file_version, *e, Ty::Any, before, after, g0, g1, t, cs))
    &&& (stmnt.0 matches Statement::Fail(_, Some(e)) ==> exists|mid: Files, t: Ty|
        #[trigger] exp_analyzed(file_id, file_version, *e, Ty::Number, mid, after, g0, g1, t, cs) && {
            let k = (file_id.0, file_version.0);
            &&& in_function_or_main(cs) ==> mid == before
            &&& !in_function_or_main(cs) ==> mid.errors() == before.errors().insert(
                k,
                before.errors_of(k).push(
                    ("Fail statements can only be used inside of functions or the main block"@, stmnt.1),
                ),
            ) && mid.symbol_tables() == before.symbol_tables() && mid.extends(&before)
        })
    &&& (stmnt.0 matches Statement::ShorthandAdd(v, e) ==> exists|mid: Files, mid2: Files, te: Ty|
        exp_analyzed(
            file_id,
            file_version,
            *e,
            variable_type(before.symbol_tables(), v.0@, (file_id.0, file_version.0), v.1.start),
            before,
            mid,
            g0,
            g1,
            te,
            cs,
        ) && #[trigger] add_checked(
            (file_id.0, file_version.0),
            g1,
            variable_type(before.symbol_tables(), v.0@, (file_id.0, file_version.0), v.1.start),
            te,
            v.1,
            mid,
            mid2,
        ) && crate::analysis::reference_recorded(
            mid2,
            after,
            g1,
            v.0@,
            (SymbolLocation { file: (file_id, file_version), start: v.1.start, end: v.1.end }),
            cs,
        ))
    &&& (stmnt.0 matches Statement::VariableSet(v, e) ==> exists|mid: Files, t: Ty|
        #[trigger] exp_analyzed(
            file_id,
            file_version,
            *e,
            variable_type(before.symbol_tables(), v.0@, (file_id.0, file_version.0), v.1.start),
            before,
            mid,
            g0,
            g1,
            t,
            cs,
        ) && crate::analysis::reference_recorded(
            mid,
            after,
            g1,
            v.0@,
            (SymbolLocation { file: (file_id, file_version), start: v.1.start, end: v.1.end }),
            cs,
        ))
}

/// The types that `+=` works on: a number, a text, or an array of them.
pub open spec fn addable() -> Ty {
    Ty::Union(seq![Ty::Text, Ty::Number, Ty::Array(Box::new(Ty::Union(seq![Ty::Text, Ty::Number])))])
}

/// What `+=` reports of a variable of type `var` to which a value of type
/// `value` is added, from the files `mid` to `after`: where the variable
/// is no number, text or array of them, or the value's type does not
/// accept it, "Cannot add to variable of type" and its type are reported
/// over the variable's span; otherwise nothing changes.
pub open spec fn add_checked(
    k: (usize, i32),
    g: GenericsMap,
    var: Ty,
    value: Ty,
    span: Span,
    mid: Files,
    after: Files,
) -> bool {
    if !crate::generics::matches(g.types(), g.rank(), addable(), var) || !crate::generics::matches(
        g.types(),
        g.rank(),
        value,
        var,
    ) {
        &&& after.errors() == mid.errors().insert(
            k,
            mid.errors_of(k).push(
                ("Cannot add to variable of type "@ + crate::generics::type_string(g.types(), g.rank(), var), span),
            ),
        )
        &&& after.symbol_tables() == mid.symbol_tables()
        &&& after.extends(&mid)
    } else {
        after == mid
    }
}

/// `+=` works only on numbers, texts and arrays of them: adding to a
/// variable whose type is no such type reports "Cannot add to variable of
/// type" and the variable's type over the variable's span.
pub proof fn law_adding_to_unaddable_variable_is_reported(
    file_id: FileId,
    file_version: FileVersion,
    v: (String, Span),
    e: Box<(Expression, Span)>,
    span: Span,
    scope_end: usize,
    cs: Seq<ContextView>,
    before: Files,
    after: Files,
    g0: GenericsMap,
    g1: GenericsMap,
    r: Option<Ty>,
)
    requires
        stmnt_analyzed(
            file_id,
            file_version,
            (Statement::ShorthandAdd(v, e), span),
            scope_end,
            cs,
            before,
            after,
            g0,
            g1,
            r,
        ),
        !crate::generics::matches(
            g1.types(),
            g1.rank(),
            addable(),
            variable_type(before.symbol_tables(), v.0@, (file_id.0, file_version.0), v.1.start),
        ),
    ensures
        after.errors_of((file_id.0, file_version.0)).contains(
            (
                "Cannot add to variable of type "@ + crate::generics::type_string(
                    g1.types(),
                    g1.rank(),
                    variable_type(before.symbol_tables(), v.0@, (file_id.0, file_version.0), v.1.start),
                ),
                v.1,
            ),
        ),
{
    let k = (file_id.0, file_version.0);
    let t = variable_type(before.symbol_tables(), v.0@, k, v.1.start);
    let msg = ("Cannot add to variable of type "@ + crate::generics::type_string(g1.types(), g1.rank(), t), v.1);
    let (mid, mid2, te) = choose|mid: Files, mid2: Files, te: Ty|
        exp_analyzed(file_id, file_version, *e, t, before, mid, g0, g1, te, cs) && #[trigger] add_checked(
            k,
            g1,
            t,
            te,
            v.1,
            mid,
            mid2,
        ) && crate::analysis::reference_recorded(
            mid2,
            after,
            g1,
            v.0@,
            (SymbolLocation { file: (file_id, file_version), start: v.1.start, end: v.1.end }),
            cs,
        );
    let n = mid.errors_of(k).len();
    assert(mid2.errors_of(k) == mid.errors_of(k).push(msg));
    assert(after.errors_of(k).len() > n && after.errors_of(k)[n as int] == msg);
}

/// The context of a block with the modifiers `mods`.
pub open spec fn block_context(mods: Seq<(CommandModifier, Span)>) -> ContextView {
    ContextView::Block(mods.map_values(|m: (CommandModifier, Span)| m.0))
}

/// What the analysis of a block in the contexts `cs` does: a block that
/// failed to parse changes nothing and yields nothing; otherwise its
/// statements are analyzed in turn, as [`stmnts_analyzed`] says, in `cs`
/// and the block's own context, each in scope up to the end of the block,
/// and the block yields the union of the types that its statements return.
pub open spec fn block_analyzed(
    file_id: FileId,
    file_version: FileVersion,
    block: (Block, Span),
    cs: Seq<ContextView>,
    before: Files,
    after: Files,
    g0: GenericsMap,
    g1: GenericsMap,
    r: Option<Ty>,
) -> bool {
    &&& block.0 is Error ==> r is None && after.errors() == before.errors()
        && after.symbol_tables() == before.symbol_tables()
    &&& block.0 matches Block::Block(mods, stmnts) ==> exists|
        fs: Seq<Files>,
        gs: Seq<GenericsMap>,
        rs: Seq<Option<Ty>>,
    |
        #![trigger stmnts_analyzed(file_id, file_version, stmnts@, Some(block.1.end), cs.push(block_context(mods@)), fs, gs, rs)]
        {
            &&& stmnts_analyzed(
                file_id,
                file_version,
                stmnts@,
                Some(block.1.end),
                cs.push(block_context(mods@)),
                fs,
                gs,
                rs,
            )
            &&& fs[0] == before
            &&& fs.last() == after
            &&& gs[0] == g0
            &&& gs.last() == g1
            &&& r == if returned_types(rs).len() == 0 {
                None
            } else {
                Some(crate::types::union_of(returned_types(rs)))
            }
        }
}

/// Where the definitions of a statement of a list are in force up to: to
/// `scope_end` where it is given, and otherwise to the end of the
/// statement.
pub open spec fn scope_of(scope_end: Option<usize>, stmnt: (Statement, Span)) -> usize {
    match scope_end {
        Some(e) => e,
        None => stmnt.1.end,
    }
}

/// Whether `fs`, `gs` and `rs` trace the analysis of the statements
/// `stmnts` in turn, each in the contexts `cs`, as [`stmnt_analyzed`]
/// says: statement `i` takes the files from `fs[i]` to `fs[i + 1]` and the
/// scoped generic types from `gs[i]` to `gs[i + 1]`, and returns `rs[i]`.
pub open spec fn stmnts_analyzed(
    file_id: FileId,
    file_version: FileVersion,
    stmnts: Seq<(Statement, Span)>,
    scope_end: Option<usize>,
    cs: Seq<ContextView>,
    fs: Seq<Files>,
    gs: Seq<GenericsMap>,
    rs: Seq<Option<Ty>>,
) -> bool {
    &&& fs.len() == stmnts.len() + 1
    &&& gs.len() == stmnts.len() + 1
    &&& rs.len() == stmnts.len()
    &&& forall|i: int|
        0 <= i < stmnts.len() ==> #[trigger] stmnt_analyzed(
            file_id,
            file_version,
            stmnts[i],
            scope_of(scope_end, stmnts[i]),
            cs,
            fs[i],
            fs[i + 1],
            gs[i],
            gs[i + 1],
            rs[i],
        )
}

/// The types that a list of statements returns, in order.
pub open spec fn returned_types(rs: Seq<Option<Ty>>) -> Seq<Ty>
    decreases rs.len(),
{
    if rs.len() == 0 {
        Seq::empty()
    } else {
        match rs.last() {
            Some(t) => returned_types(rs.drop_last()).push(t),
            None => returned_types(rs.drop_last()),
        }
    }
}

/// Whether an element of an `if` chain is a branch: a condition with a
/// block or a statement, or an `else`; comments and conditions that failed
/// to parse are not.
pub open spec fn is_branch(c: IfChainContent) -> bool {
    match c {
        IfChainContent::IfCondition((IfCondition::IfCondition(_, _), _)) => true,
        IfChainContent::IfCondition((IfCondition::InlineIfCondition(_, _), _)) => true,
        IfChainContent::Else(_) => true,
        _ => false,
    }
}

/// What the analysis of the branch `c` of an `if` chain does: a condition
/// is analyzed as a boolean, then its block as [`block_analyzed`] says or
/// its statement as [`stmnt_analyzed`] says; an `else` block or statement
/// likewise, with no condition.
pub open spec fn branch_analyzed(
    file_id: FileId,
    file_version: FileVersion,
    c: IfChainContent,
    cs: Seq<ContextView>,
    before: Files,
    after: Files,
    g0: GenericsMap,
    g1: GenericsMap,
    r: Option<Ty>,
) -> bool {
    match c {
        IfChainContent::IfCondition((IfCondition::IfCondition(cond, b), _)) => exists|
            mid: Files,
            gm: GenericsMap,
            t: Ty,
        |
            #![trigger exp_analyzed(file_id, file_version, *cond, Ty::Boolean, before, mid, g0, gm, t, cs)]
            exp_analyzed(file_id, file_version, *cond, Ty::Boolean, before, mid, g0, gm, t, cs)
                && block_analyzed(file_id, file_version, b, cs, mid, after, gm, g1, r),
        IfChainContent::IfCondition((IfCondition::InlineIfCondition(cond, inner), _)) => exists|
            mid: Files,
            gm: GenericsMap,
            t: Ty,
        |
            #![trigger exp_analyzed(file_id, file_version, *cond, Ty::Boolean, before, mid, g0, gm, t, cs)]
            exp_analyzed(file_id, file_version, *cond, Ty::Boolean, before, mid, g0, gm, t, cs)
                && stmnt_analyzed(file_id, file_version, *inner, inner.1.end, cs, mid, after, gm, g1, r),
        IfChainContent::Else((ElseCondition::Else(_, b), _)) => block_analyzed(
            file_id,
            file_version,
            b,
            cs,
            before,
            after,
            g0,
            g1,
            r,
        ),
        IfChainContent::Else((ElseCondition::InlineElse(_, inner), _)) => stmnt_analyzed(
            file_id,
            file_version,
            *inner,
            inner.1.end,
            cs,
            before,
            after,
            g0,
            g1,
            r,
        ),
        _ => true,
    }
}

/// Analyzes a statement, whose definitions are in force up to
/// `scope_end`, and gives back the type of the value that it returns, if
/// it returns one: a `return` returns the type of its value, or `Null`
/// without one; a block, a condition or a loop returns what its body
/// returns; any other statement returns nothing.
///
/// `break` and `continue` outside of any loop are reported, and nothing
/// else changes for them. A block, an endless loop, the block of an `if`
/// after its condition is analyzed as a boolean, an `else` block after a
/// condition that failed to parse, and the body of an iterator loop after
/// its iterator and variables are analyzed as [`block_analyzed`] says; the
/// statement of an inline `if` or `else` is analyzed as
/// [`stmnt_analyzed`] says. Of an `if` chain, only the first branch is
/// analyzed, as [`branch_analyzed`] says.
pub fn analyze_stmnt(
    file_id: FileId,
    file_version: FileVersion,
    stmnt: &(Statement, Span),
    files: &mut Files,
    scope_end: usize,
    scoped_generic_types: &mut GenericsMap,
    contexts: &Vec<Context>,
) -> (r: Option<DataType>)
    requires
        old(scoped_generic_types).wf(),
    ensures
        final(files).extends(old(files)),
        generics_kept(*final(scoped_generic_types), *old(scoped_generic_types)),
        yields_nothing(stmnt.0) ==> r is None,
        stmnt.0 matches Statement::Return(_, None) ==> r == Some(DataType::Null),
        stmnt.0 matches Statement::Return(_, Some(_)) ==> r is Some,
        stmnt.0 matches Statement::Return(_, Some(e)) ==> (static_type(*e) matches Some(t) ==> (r matches Some(x)
            && x@ == t)),
        stmnt.0 matches Statement::VariableInit(_, v, _) ==> (v.1.start < v.1.end && stmnt.1.end <= scope_end
            ==> variable_declared(
            final(files),
            (file_id.0, file_version.0),
            (file_id, file_version),
            v,
            stmnt.1,
            false,
            crate::analysis::contexts_view(contexts@),
        )),
        stmnt.0 matches Statement::ConstInit(_, v, _) ==> (v.1.start < v.1.end && stmnt.1.end <= scope_end
            ==> variable_declared(
            final(files),
            (file_id.0, file_version.0),
            (file_id, file_version),
            v,
            stmnt.1,
            true,
            crate::analysis::contexts_view(contexts@),
        )),
        stmnt.0 matches Statement::VariableInit(_, v, (VariableInitType::DataType(t), _)) ==> (v.1.start
            < v.1.end && stmnt.1.end <= scope_end ==> (crate::files::symbol_at(
            final(files).symbol_tables()[(file_id.0, file_version.0)],
            v.1.start,
        ) matches Some(info) && info.data_type == crate::generics::deref(
            old(scoped_generic_types).types(),
            old(scoped_generic_types).rank(),
            old(scoped_generic_types).inferred_ids(),
            t.0@,
        ))),
        number_shorthand(stmnt.0) matches Some((v, message)) ==> ({
            let k = (file_id.0, file_version.0);
            let g = *old(scoped_generic_types);
            let t = variable_type(old(files).symbol_tables(), v.0@, k, v.1.start);
            &&& !crate::generics::matches(g.types(), g.rank(), Ty::Number, t) ==> {
                &&& final(files).errors_of(k).len() > old(files).errors_of(k).len()
                &&& final(files).errors_of(k)[old(files).errors_of(k).len() as int] == (
                    message + crate::generics::type_string(g.types(), g.rank(), t),
                    v.1,
                )
            }
            &&& v.1.start <= v.1.end && old(files).symbol_tables().contains_key(k) ==> {
                &&& final(files).symbol_tables().contains_key(k)
                &&& crate::analysis::references_of(final(files).symbol_tables()[k], v.0@).last()
                    == SymbolLocation { file: (file_id, file_version), start: v.1.start, end: v.1.end }
            }
        }),
        misplaced_message(stmnt.0, crate::analysis::contexts_view(contexts@)) matches Some(m) ==> {
            let k = (file_id.0, file_version.0);
            &&& final(files).errors_of(k).len() > old(files).errors_of(k).len()
            &&& final(files).errors_of(k)[old(files).errors_of(k).len() as int] == (m, stmnt.1)
        },
        stmnt.0 matches Statement::Return(_, None) ==> {
            let k = (file_id.0, file_version.0);
            &&& final(files).symbol_tables() == old(files).symbol_tables()
            &&& final(files).errors() == if in_function(crate::analysis::contexts_view(contexts@)) {
                old(files).errors()
            } else {
                old(files).errors().insert(
                    k,
                    old(files).errors_of(k).push(("Return statement outside of function"@, stmnt.1)),
                )
            }
        },
        stmnt.0 matches Statement::Fail(_, None) ==> {
            let k = (file_id.0, file_version.0);
            &&& final(files).symbol_tables() == old(files).symbol_tables()
            &&& final(files).errors() == if in_function_or_main(
                crate::analysis::contexts_view(contexts@),
            ) {
                old(files).errors()
            } else {
                old(files).errors().insert(
                    k,
                    old(files).errors_of(k).push(
                        (
                            "Fail statements can only be used inside of functions or the main block"@,
                            stmnt.1,
                        ),
                    ),
                )
            }
        },
        (stmnt.0 is Break || stmnt.0 is Continue) ==> {
            let k = (file_id.0, file_version.0);
            &&& final(files).symbol_tables() == old(files).symbol_tables()
            &&& final(scoped_generic_types).types() == old(scoped_generic_types).types()
            &&& final(files).errors() == if in_loop(crate::analysis::contexts_view(contexts@)) {
                old(files).errors()
            } else {
                old(files).errors().insert(
                    k,
                    old(files).errors_of(k).push(
                        (
                            if stmnt.0 is Break {
                                "Break statement outside of loop"@
                            } else {
                                "Continue statement outside of loop"@
                            },
                            stmnt.1,
                        ),
                    ),
                )
            }
        },
        stmnt_analyzed(
            file_id,
            file_version,
            *stmnt,
            scope_end,
            crate::analysis::contexts_view(contexts@),
            *old(files),
            *final(files),
            *old(scoped_generic_types),
            *final(scoped_generic_types),
            opt_ty(r),
        ),
        stmnt.0 matches Statement::Block(b) ==> block_analyzed(
            file_id,
            file_version,
            b,
            crate::analysis::contexts_view(contexts@),
            *old(files),
            *final(files),
            *old(scoped_generic_types),
            *final(scoped_generic_types),
            opt_ty(r),
        ),
        stmnt.0 matches Statement::IfCondition(_, (IfCondition::IfCondition(cond, b), _), _, _) ==> exists|
            mid: Files,
            gm: GenericsMap,
            t: Ty,
        |
            #![trigger exp_analyzed(file_id, file_version, *cond, Ty::Boolean, *old(files), mid, *old(scoped_generic_types), gm, t, crate::analysis::contexts_view(contexts@))]
            exp_analyzed(
                file_id,
                file_version,
                *cond,
                Ty::Boolean,
                *old(files),
                mid,
                *old(scoped_generic_types),
                gm,
                t,
                crate::analysis::contexts_view(contexts@),
            ) && block_analyzed(
                file_id,
                file_version,
                b,
                crate::analysis::contexts_view(contexts@),
                mid,
                *final(files),
                gm,
                *final(scoped_generic_types),
                opt_ty(r),
            ),
        stmnt.0 matches Statement::IfCondition(_, (c, _), _, Some((ElseCondition::Else(_, b), _))) ==> (
        c is Comment || c is Error) ==> block_analyzed(
            file_id,
            file_version,
            b,
            crate::analysis::contexts_view(contexts@),
            *old(files),
            *final(files),
            *old(scoped_generic_types),
            *final(scoped_generic_types),
            opt_ty(r),
        ),
        stmnt.0 matches Statement::IfCondition(_, (IfCondition::InlineIfCondition(cond, inner), _), _, _) ==> exists|
            mid: Files,
            gm: GenericsMap,
            t: Ty,
        |
            #![trigger exp_analyzed(file_id, file_version, *cond, Ty::Boolean, *old(files), mid, *old(scoped_generic_types), gm, t, crate::analysis::contexts_view(contexts@))]
            exp_analyzed(
                file_id,
                file_version,
                *cond,
                Ty::Boolean,
                *old(files),
                mid,
                *old(scoped_generic_types),
                gm,
                t,
                crate::analysis::contexts_view(contexts@),
            ) && stmnt_analyzed(
                file_id,
                file_version,
                *inner,
                inner.1.end,
                crate::analysis::contexts_view(contexts@),
                mid,
                *final(files),
                gm,
                *final(scoped_generic_types),
                opt_ty(r),
            ),
        stmnt.0 matches Statement::IfCondition(_, (c, _), _, Some((ElseCondition::InlineElse(_, inner), _))) ==> (
        c is Comment || c is Error) ==> stmnt_analyzed(
            file_id,
            file_version,
            *inner,
            inner.1.end,
            crate::analysis::contexts_view(contexts@),
            *old(files),
            *final(files),
            *old(scoped_generic_types),
            *final(scoped_generic_types),
            opt_ty(r),
        ),
        stmnt.0 matches Statement::IterLoop(_, _, _, _, b) ==> exists|mid: Files, gm: GenericsMap|
            #![trigger block_analyzed(file_id, file_version, b, crate::analysis::contexts_view(contexts@).push(ContextView::Loop), mid, *final(files), gm, *final(scoped_generic_types), opt_ty(r))]
            {
                &&& mid.extends(old(files))
                &&& generics_kept(gm, *old(scoped_generic_types))
                &&& block_analyzed(
                    file_id,
                    file_version,
                    b,
                    crate::analysis::contexts_view(contexts@).push(ContextView::Loop),
                    mid,
                    *final(files),
                    gm,
                    *final(scoped_generic_types),
                    opt_ty(r),
                )
            },
        stmnt.0 matches Statement::IfChain(_, chain) ==> forall|i: int|
            0 <= i < chain@.len() && #[trigger] is_branch(chain@[i].0) && (forall|j: int|
                0 <= j < i ==> !is_branch(#[trigger] chain@[j].0)) ==> branch_analyzed(
                file_id,
                file_version,
                chain@[i].0,
                crate::analysis::contexts_view(contexts@),
                *old(files),
                *final(files),
                *old(scoped_generic_types),
                *final(scoped_generic_types),
                opt_ty(r),
            ),
        stmnt.0 matches Statement::InfiniteLoop(_, b) ==> block_analyzed(
            file_id,
            file_version,
            b,
            crate::analysis::contexts_view(contexts@).push(ContextView::Loop),
            *old(files),
            *final(files),
            *old(scoped_generic_types),
            *final(scoped_generic_types),
            opt_ty(r),
        ),
    decreases stmnt, 2nat,
{
    let ghost g0 = *scoped_generic_types;
    let ghost f0 = *files;
    let span = stmnt.1;
    let file = (file_id, file_version);
    let k = (file_id.0, file_version.0);
    proof {
        lemma_extends_refl(files);
    }
    match &stmnt.0 {
        Statement::Block(block) => {
            return analyze_block(file_id, file_version, block, files, scoped_generic_types, contexts.as_slice());
        },
        Statement::IfChain(_, if_chain) => {
            let mut i: usize = 0;
            #[verifier::loop_isolation(false)]
            while i < if_chain.len()
                invariant
                    i <= if_chain.len(),
                    files.extends(&f0),
                    f0 == *old(files),
                    generics_kept(*scoped_generic_types, g0),
                    *files == f0,
                    *scoped_generic_types == g0,
                    forall|j: int| 0 <= j < i ==> !is_branch(#[trigger] if_chain@[j].0),
                decreases if_chain.len() - i,
            {
                match &if_chain[i].0 {
                    IfChainContent::IfCondition((condition, _)) => match condition {
                        IfCondition::IfCondition(cond, block) => {
                            let ghost mid = *files;
                            let cond_ty = analyze_exp(file_id, file_version, &**cond, DataType::Boolean, files, scoped_generic_types, contexts);
                            let ghost mid2 = *files;
                            let ghost gm = *scoped_generic_types;
                            let r = analyze_block(file_id, file_version, block, files, scoped_generic_types, contexts.as_slice());
                            proof {
                                lemma_extends_trans(&f0, &mid, &mid2);
                                lemma_extends_trans(&f0, &mid2, files);
                                assert(exp_analyzed(file_id, file_version, **cond, Ty::Boolean, f0, mid2, g0, gm, cond_ty@, crate::analysis::contexts_view(contexts@)));
                                assert(branch_analyzed(
                                    file_id,
                                    file_version,
                                    if_chain@[i as int].0,
                                    crate::analysis::contexts_view(contexts@),
                                    f0,
                                    *files,
                                    g0,
                                    *scoped_generic_types,
                                    opt_ty(r),
                                ));
                            }
                            return r;
                        },
                        IfCondition::InlineIfCondition(cond, boxed_stmnt) => {
                            let ghost mid = *files;
                            let cond_ty = analyze_exp(file_id, file_version, &**cond, DataType::Boolean, files, scoped_generic_types, contexts);
                            let ghost mid2 = *files;
                            let ghost gm = *scoped_generic_types;
                            let r = analyze_stmnt(file_id, file_version, &**boxed_stmnt, files, boxed_stmnt.1.end, scoped_generic_types, contexts);
                            proof {
                                lemma_extends_trans(&f0, &mid, &mid2);
                                lemma_extends_trans(&f0, &mid2, files);
                                assert(exp_analyzed(file_id, file_version, **cond, Ty::Boolean, f0, mid2, g0, gm, cond_ty@, crate::analysis::contexts_view(contexts@)));
                                assert(branch_analyzed(
                                    file_id,
                                    file_version,
                                    if_chain@[i as int].0,
                                    crate::analysis::contexts_view(contexts@),
                                    f0,
                                    *files,
                                    g0,
                                    *scoped_generic_types,
                                    opt_ty(r),
                                ));
                            }
                            return r;
                        },
                        _ => {},
                    },
                    IfChainContent::Else((else_cond, _)) => match else_cond {
                        ElseCondition::Else(_, block) => {
                            let ghost mid = *files;
                            let r = analyze_block(file_id, file_version, block, files, scoped_generic_types, contexts.as_slice());
                            proof {
                                lemma_extends_trans(&f0, &mid, files);
                                assert(branch_analyzed(
                                    file_id,
                                    file_version,
                                    if_chain@[i as int].0,
                                    crate::analysis::contexts_view(contexts@),
                                    f0,
                                    *files,
                                    g0,
                                    *scoped_generic_types,
                                    opt_ty(r),
                                ));
                            }
                            return r;
                        },
                        ElseCondition::InlineElse(_, inner) => {
                            let ghost mid = *files;
                            let r = analyze_stmnt(file_id, file_version, &**inner, files, inner.1.end, scoped_generic_types, contexts);
                            proof {
                                lemma_extends_trans(&f0, &mid, files);
                                assert(branch_analyzed(
                                    file_id,
                                    file_version,
                                    if_chain@[i as int].0,
                                    crate::analysis::contexts_view(contexts@),
                                    f0,
                                    *files,
                                    g0,
                                    *scoped_generic_types,
                                    opt_ty(r),
                                ));
                            }
                            return r;
                        },
                    },
                    IfChainContent::Comment(_) => {},
                }
                i += 1;
            }
        },
        Statement::IfCondition(_, if_cond, _, else_cond) => {
            match &if_cond.0 {
                IfCondition::IfCondition(cond, block) => {
                    let cond_ty = analyze_exp(file_id, file_version, &**cond, DataType::Boolean, files, scoped_generic_types, contexts);
                    let ghost mid = *files;
                    let ghost gm = *scoped_generic_types;
                    let r = analyze_block(file_id, file_version, block, files, scoped_generic_types, contexts.as_slice());
                    proof {
                        lemma_extends_trans(&f0, &mid, files);
                        assert(exp_analyzed(
                            file_id,
                            file_version,
                            **cond,
                            Ty::Boolean,
                            f0,
                            mid,
                            *old(scoped_generic_types),
                            gm,
                            cond_ty@,
                            crate::analysis::contexts_view(contexts@),
                        ));
                    }
                    return r;
                },
                IfCondition::InlineIfCondition(cond, boxed_stmnt) => {
                    let cond_ty = analyze_exp(file_id, file_version, &**cond, DataType::Boolean, files, scoped_generic_types, contexts);
                    let ghost mid = *files;
                    let ghost gm = *scoped_generic_types;
                    let r = analyze_stmnt(file_id, file_version, &**boxed_stmnt, files, boxed_stmnt.1.end, scoped_generic_types, contexts);
                    proof {
                        lemma_extends_trans(&f0, &mid, files);
                        assert(exp_analyzed(
                            file_id,
                            file_version,
                            **cond,
                            Ty::Boolean,
                            f0,
                            mid,
                            *old(scoped_generic_types),
                            gm,
                            cond_ty@,
                            crate::analysis::contexts_view(contexts@),
                        ));
                    }
                    return r;
                },
                _ => {},
            }
            if let Some(else_cond) = else_cond {
                match &else_cond.0 {
                    ElseCondition::Else(_, block) => {
                        return analyze_block(file_id, file_version, block, files, scoped_generic_types, contexts.as_slice());
                    },
                    ElseCondition::InlineElse(_, inner) => {
                        return analyze_stmnt(file_id, file_version, &**inner, files, inner.1.end, scoped_generic_types, contexts);
                    },
                }
            }
        },
        Statement::InfiniteLoop(_, block) => {
            let mut new_contexts = copy_contexts(contexts.as_slice());
            new_contexts.push(Context::Loop);
            proof {
                assert(crate::analysis::contexts_view(new_contexts@) =~= crate::analysis::contexts_view(
                    contexts@,
                ).push(ContextView::Loop));
            }
            return analyze_block(file_id, file_version, block, files, scoped_generic_types, new_contexts.as_slice());
        },
        Statement::IterLoop(_, (vars, _), _, iter_exp, block) => {
            let block_span = block.1;
            let iter_type = match analyze_exp(
                file_id,
                file_version,
                &**iter_exp,
                DataType::Array(Box::new(DataType::Any)),
                files,
                scoped_generic_types,
                contexts,
            ) {
                DataType::Array(ty) => *ty,
                _ => DataType::Any,
            };
            let ghost mid = *files;
            match vars {
                IterLoopVars::WithIndex((var1, var1_span), (var2, var2_span)) => {
                    let mut table = files.take_or_new_table(k);
                    insert_symbol_definition(
                        &mut table,
                        &SymbolInfo {
                            name: var1.clone(),
                            data_type: DataType::Number,
                            symbol_type: SymbolType::Variable(VariableSymbol { is_const: false }),
                            is_definition: true,
                            undefined: false,
                            span: *var1_span,
                            contexts: copy_contexts(contexts.as_slice()),
                        },
                        file,
                        block_span.start..=block_span.end,
                        false,
                    );
                    insert_symbol_definition(
                        &mut table,
                        &SymbolInfo {
                            name: var2.clone(),
                            symbol_type: SymbolType::Variable(VariableSymbol { is_const: false }),
                            data_type: iter_type,
                            is_definition: true,
                            undefined: false,
                            span: *var2_span,
                            contexts: copy_contexts(contexts.as_slice()),
                        },
                        file,
                        block_span.start..=block_span.end,
                        false,
                    );
                    files.put_symbol_table(k, table);
                },
                IterLoopVars::Single((var, var_span)) => {
                    let mut table = files.take_or_new_table(k);
                    insert_symbol_definition(
                        &mut table,
                        &SymbolInfo {
                            name: var.clone(),
                            symbol_type: SymbolType::Variable(VariableSymbol { is_const: false }),
                            data_type: iter_type,
                            is_definition: true,
                            undefined: false,
                            span: *var_span,
                            contexts: copy_contexts(contexts.as_slice()),
                        },
                        file,
                        block_span.start..=block_span.end,
                        false,
                    );
                    files.put_symbol_table(k, table);
                },
                _ => {},
            }
            proof {
                lemma_extends_trans(&f0, &mid, files);
            }
            let ghost mid2 = *files;
            let ghost gm2 = *scoped_generic_types;
            let mut new_contexts = copy_contexts(contexts.as_slice());
            new_contexts.push(Context::Loop);
            proof {
                assert(crate::analysis::contexts_view(new_contexts@) =~= crate::analysis::contexts_view(
                    contexts@,
                ).push(ContextView::Loop));
            }
            let r = analyze_block(file_id, file_version, block, files, scoped_generic_types, new_contexts.as_slice());
            proof {
                lemma_extends_trans(&f0, &mid2, files);
                assert(block_analyzed(
                    file_id,
                    file_version,
                    *block,
                    crate::analysis::contexts_view(contexts@).push(ContextView::Loop),
                    mid2,
                    *files,
                    gm2,
                    *scoped_generic_types,
                    opt_ty(r),
                ));
            }
            return r;
        },
        Statement::VariableInit(_, (var_name, var_span), (value, _)) => {
            let var_type = match value {
                VariableInitType::Expression(init) => analyze_exp(file_id, file_version, init, DataType::Any, files, scoped_generic_types, contexts),
                VariableInitType::DataType((ty, _)) => ty.copy(),
                _ => DataType::Error,
            };
            let ghost mid = *files;
            let mut table = files.take_or_new_table(k);
            let ghost table_before = table@;
            let info = SymbolInfo {
                name: var_name.clone(),
                symbol_type: SymbolType::Variable(VariableSymbol { is_const: false }),
                data_type: scoped_generic_types.deref_type(&var_type),
                is_definition: true,
                undefined: false,
                span: *var_span,
                contexts: copy_contexts(contexts.as_slice()),
            };
            let scope = span.end..=scope_end;
            let ghost scope_view = scope@;
            insert_symbol_definition(&mut table, &info, file, scope, false);
            proof {
                if var_span.start < var_span.end && span.end <= scope_end {
                    crate::analysis::law_definition_found_in_scope(table_before, info@, file, scope_view, false, span.end);
                }
            }
            files.put_symbol_table(k, table);
            proof {
                lemma_extends_trans(&f0, &mid, files);
            }
        },
        Statement::ConstInit(_, (var_name, var_span), init) => {
            let var_type = analyze_exp(file_id, file_version, &**init, DataType::Any, files, scoped_generic_types, contexts);
            let ghost mid = *files;
            let mut table = files.take_or_new_table(k);
            let ghost table_before = table@;
            let info = SymbolInfo {
                name: var_name.clone(),
                symbol_type: SymbolType::Variable(VariableSymbol { is_const: true }),
                data_type: scoped_generic_types.deref_type(&var_type),
                is_definition: true,
                undefined: false,
                span: *var_span,
                contexts: copy_contexts(contexts.as_slice()),
            };
            let scope = span.end..=scope_end;
            let ghost scope_view = scope@;
            insert_symbol_definition(&mut table, &info, file, scope, false);
            proof {
                if var_span.start < var_span.end && span.end <= scope_end {
                    crate::analysis::law_definition_found_in_scope(table_before, info@, file, scope_view, false, span.end);
                }
            }
            files.put_symbol_table(k, table);
            proof {
                lemma_extends_trans(&f0, &mid, files);
            }
        },
        Statement::Echo(_, inner) => {
            let t = analyze_exp(file_id, file_version, &**inner, DataType::Any, files, scoped_generic_types, contexts);
            proof {
                assert(exp_analyzed(file_id, file_version, **inner, Ty::Any, f0, *files, g0, *scoped_generic_types, t@, crate::analysis::contexts_view(contexts@)));
            }
        },
        Statement::Expression(inner) => {
            let t = analyze_exp(file_id, file_version, &**inner, DataType::Any, files, scoped_generic_types, contexts);
            proof {
                assert(exp_analyzed(file_id, file_version, **inner, Ty::Any, f0, *files, g0, *scoped_generic_types, t@, crate::analysis::contexts_view(contexts@)));
            }
        },
        Statement::Fail(_, value) => {
            if !has_function_or_main(contexts) {
                files.report_error(
                    &file,
                    "Fail statements can only be used inside of functions or the main block",
                    span,
                );
            }
            if let Some(value) = value {
                let ghost mid = *files;
                let t = analyze_exp(file_id, file_version, &**value, DataType::Number, files, scoped_generic_types, contexts);
                proof {
                    lemma_extends_trans(&f0, &mid, files);
                    assert(exp_analyzed(file_id, file_version, **value, Ty::Number, mid, *files, g0, *scoped_generic_types, t@, crate::analysis::contexts_view(contexts@)));
                }
            }
        },
        Statement::Return(_, value) => {
            if !has_function(contexts) {
                files.report_error(&file, "Return statement outside of function", span);
            }
            if let Some(value) = value {
                let ghost mid = *files;
                let ty = analyze_exp(file_id, file_version, &**value, DataType::Any, files, scoped_generic_types, contexts);
                proof {
                    assert(mid.errors() == mid.errors());
                    lemma_extends_trans(&f0, &mid, files);
                    let n = f0.errors_of(k).len();
                    if n < mid.errors_of(k).len() {
                        assert(crate::files::prefix_of(mid.errors_of(k), files.errors_of(k)));
                        assert(files.errors_of(k)[n as int] == mid.errors_of(k)[n as int]);
                    }
                }
                return Some(ty);
            }
            return Some(DataType::Null);
        },
        Statement::ShorthandAdd((var, var_span), value) => {
            let var_ty = match get_symbol_definition_info(files, var.as_str(), &file, var_span.start) {
                Some(info) => info.data_type,
                None => DataType::Any,
            };
            let text_or_number = DataType::Union(vec![DataType::Text, DataType::Number]);
            proof {
                crate::types::lemma_view_types(seq![DataType::Text, DataType::Number]);
                assert(crate::types::view_types(seq![DataType::Text, DataType::Number]) =~= seq![
                    Ty::Text,
                    Ty::Number,
                ]);
                assert(text_or_number@ == Ty::Union(seq![Ty::Text, Ty::Number]));
            }
            let ghost tn = text_or_number;
            let default_ty = DataType::Union(
                vec![DataType::Text, DataType::Number, DataType::Array(Box::new(text_or_number))],
            );
            proof {
                let outer = seq![DataType::Text, DataType::Number, DataType::Array(Box::new(tn))];
                crate::types::lemma_view_types(outer);
                assert(crate::types::view_types(outer) =~= seq![
                    Ty::Text,
                    Ty::Number,
                    Ty::Array(Box::new(Ty::Union(seq![Ty::Text, Ty::Number]))),
                ]);
                assert(default_ty@ == addable());
            }
            let ghost var_view = var_ty@;
            let exp_ty = analyze_exp(file_id, file_version, &**value, var_ty.copy(), files, scoped_generic_types, contexts);
            let ghost mid = *files;

            if !matches_type(&default_ty, &var_ty, scoped_generic_types) || !matches_type(&exp_ty, &var_ty, scoped_generic_types) {
                let mut msg = String::from_str("Cannot add to variable of type ");
                let t = var_ty.to_string(scoped_generic_types);
                msg.append(t.as_str());
                files.report_error(&file, msg.as_str(), *var_span);
            }
            let ghost mid2 = *files;
            insert_symbol_reference(var.as_str(), files, &SymbolLocation { file, start: var_span.start, end: var_span.end }, scoped_generic_types, contexts.as_slice());
            proof {
                lemma_extends_refl(&mid);
                lemma_extends_trans(&f0, &mid, &mid2);
                lemma_extends_trans(&f0, &mid2, files);
                assert(exp_analyzed(file_id, file_version, **value, var_view, f0, mid, g0, *scoped_generic_types, exp_ty@, crate::analysis::contexts_view(contexts@)));
                assert(add_checked((file_id.0, file_version.0), *scoped_generic_types, var_view, exp_ty@, *var_span, mid, mid2));
            }
        },
        Statement::ShorthandSub((var, var_span), value) => {
            shorthand_number(file_id, file_version, var, *var_span, &**value, "Cannot use subtract with variable of type ", files, scoped_generic_types, contexts);
        },
        Statement::ShorthandMul((var, var_span), value) => {
            shorthand_number(file_id, file_version, var, *var_span, &**value, "Cannot use multiply with variable of type ", files, scoped_generic_types, contexts);
        },
        Statement::ShorthandDiv((var, var_span), value) => {
            shorthand_number(file_id, file_version, var, *var_span, &**value, "Cannot divide variable of type ", files, scoped_generic_types, contexts);
        },
        Statement::ShorthandModulo((var, var_span), value) => {
            shorthand_number(file_id, file_version, var, *var_span, &**value, "Cannot use modulo with variable of type ", files, scoped_generic_types, contexts);
        },
        Statement::VariableSet((var, var_span), value) => {
            let var_ty = match get_symbol_definition_info(files, var.as_str(), &file, var_span.start) {
                Some(info) => info.data_type,
                None => DataType::Any,
            };
            let ghost expected = var_ty@;
            let t = analyze_exp(file_id, file_version, &**value, var_ty, files, scoped_generic_types, contexts);
            let ghost mid = *files;
            insert_symbol_reference(var.as_str(), files, &SymbolLocation { file, start: var_span.start, end: var_span.end }, scoped_generic_types, contexts.as_slice());
            proof {
                lemma_extends_trans(&f0, &mid, files);
                assert(exp_analyzed(file_id, file_version, **value, expected, f0, mid, g0, *scoped_generic_types, t@, crate::analysis::contexts_view(contexts@)));
            }
        },
        Statement::Break => {
            if !has_loop(contexts) {
                files.report_error(&file, "Break statement outside of loop", span);
            }
        },
        Statement::Continue => {
            if !has_loop(contexts) {
                files.report_error(&file, "Continue statement outside of loop", span);
            }
        },
        Statement::Comment(_) => {},
        Statement::Shebang(_) => {},
        Statement::Error => {},
    }
    None
}

/// The type of the variable `var` at `pos` of version `k` of a file, as
/// its definition in force there gives it; `Any` where none is.
pub open spec fn variable_type(tables: Map<(usize, i32), crate::analysis::SymbolTableView>, var: Seq<char>, k: (usize, i32), pos: usize) -> Ty {
    match definition_info(tables, var, k, pos) {
        Some(info) => info.data_type,
        None => Ty::Any,
    }
}

/// The part of a shorthand assignment `var op= value` on numbers: where
/// the variable is no number, `message` and its type are reported over its
/// span; then the value is analyzed as a number and the variable is
/// recorded as referred to.
fn shorthand_number(
    file_id: FileId,
    file_version: FileVersion,
    var: &String,
    var_span: Span,
    value: &(Expression, Span),
    message: &str,
    files: &mut Files,
    scoped_generic_types: &mut GenericsMap,
    contexts: &Vec<Context>,
)
    requires
        old(scoped_generic_types).wf(),
    ensures
        final(files).extends(old(files)),
        generics_kept(*final(scoped_generic_types), *old(scoped_generic_types)),
        ({
            let k = (file_id.0, file_version.0);
            let g = *old(scoped_generic_types);
            let t = variable_type(old(files).symbol_tables(), var@, k, var_span.start);
            !crate::generics::matches(g.types(), g.rank(), Ty::Number, t) ==> {
                &&& final(files).errors_of(k).len() > old(files).errors_of(k).len()
                &&& final(files).errors_of(k)[old(files).errors_of(k).len() as int] == (
                    message@ + crate::generics::type_string(g.types(), g.rank(), t),
                    var_span,
                )
            }
        }),
        ({
            let k = (file_id.0, file_version.0);
            var_span.start <= var_span.end && old(files).symbol_tables().contains_key(k) ==> {
                &&& final(files).symbol_tables().contains_key(k)
                &&& crate::analysis::references_of(final(files).symbol_tables()[k], var@).last()
                    == SymbolLocation {
                    file: (file_id, file_version),
                    start: var_span.start,
                    end: var_span.end,
                }
            }
        }),
    decreases value, 3nat,
{
    let ghost k = (file_id.0, file_version.0);
    let file = (file_id, file_version);
    let var_ty = match get_symbol_definition_info(files, var.as_str(), &file, var_span.start) {
        Some(info) => info.data_type,
        None => DataType::Any,
    };
    if !matches_type(&DataType::Number, &var_ty, scoped_generic_types) {
        let mut msg = String::from_str(message);
        let t = var_ty.to_string(scoped_generic_types);
        msg.append(t.as_str());
        files.report_error(&file, msg.as_str(), var_span);
    } else {
        proof {
            lemma_extends_refl(files);
        }
    }
    let ghost mid = *files;
    analyze_exp(file_id, file_version, value, DataType::Number, files, scoped_generic_types, contexts);
    let ghost mid2 = *files;
    let loc = SymbolLocation { file, start: var_span.start, end: var_span.end };
    insert_symbol_reference(var.as_str(), files, &loc, scoped_generic_types, contexts.as_slice());
    proof {
        lemma_extends_trans(old(files), &mid, &mid2);
        lemma_extends_trans(old(files), &mid2, files);
        let n = old(files).errors_of(k).len();
        if n < mid.errors_of(k).len() {
            assert(crate::files::prefix_of(mid.errors_of(k), files.errors_of(k)));
            assert(files.errors_of(k)[n as int] == mid.errors_of(k)[n as int]);
        }
        if var_span.start <= var_span.end && old(files).symbol_tables().contains_key(k) {
            assert(mid2.symbol_tables().contains_key(k));
            crate::analysis::law_reference_is_recorded(
                mid2.symbol_tables()[k],
                crate::analysis::reference_info(
                    *scoped_generic_types,
                    definition_info(mid2.symbol_tables(), var@, k, loc.start),
                    var@,
                    loc.start,
                    loc.end,
                    crate::analysis::contexts_view(contexts@),
                ),
                var@,
                loc,
            );
        }
    }
}

/// Whether `info` is the symbol of a variable declared over `name`: its
/// name and span, a definition of a variable, constant or not, that stands
/// in the contexts `cs`.
pub open spec fn declared_variable(
    info: crate::analysis::SymbolInfoView,
    name: (String, Span),
    is_const: bool,
    cs: Seq<ContextView>,
) -> bool {
    &&& info.name == name.0@
    &&& info.span == name.1
    &&& info.is_definition
    &&& !info.undefined
    &&& info.symbol_type == crate::analysis::SymbolTypeView::Variable(VariableSymbol { is_const })
    &&& info.contexts == cs
}

/// Where a statement spanning `span` declares a variable over `name`, what
/// the table of its file holds after it: the declaration in force for the
/// name from the end of the statement, and the variable's symbol at the
/// start of its name.
pub open spec fn variable_declared(
    files: &Files,
    k: (usize, i32),
    file: (FileId, FileVersion),
    name: (String, Span),
    span: Span,
    is_const: bool,
    cs: Seq<ContextView>,
) -> bool {
    &&& files.symbol_tables().contains_key(k)
    &&& crate::files::scope_at(files.symbol_tables()[k], name.0@, span.end) == Some(
        SymbolLocation { file, start: name.1.start, end: name.1.end },
    )
    &&& crate::files::symbol_at(files.symbol_tables()[k], name.1.start) matches Some(info)
        && declared_variable(info, name, is_const, cs)
}

/// The variable and the error message of a shorthand assignment that
/// works on numbers only: `-=`, `*=`, `/=` and `%=`.
pub open spec fn number_shorthand(s: Statement) -> Option<((String, Span), Seq<char>)> {
    match s {
        Statement::ShorthandSub(v, _) => Some((v, "Cannot use subtract with variable of type "@)),
        Statement::ShorthandMul(v, _) => Some((v, "Cannot use multiply with variable of type "@)),
        Statement::ShorthandDiv(v, _) => Some((v, "Cannot divide variable of type "@)),
        Statement::ShorthandModulo(v, _) => Some((v, "Cannot use modulo with variable of type "@)),
        _ => None,
    }
}

/// What a statement returns whatever the symbol tables and the generic
/// types hold, where its form decides it: nothing for a statement that
/// yields nothing, `Null` for a `return` without a value, and for a
/// `return` with a value the type of that value where [`static_type`]
/// decides it. None where it depends on more.
pub open spec fn static_return(s: (Statement, Span)) -> Option<Option<Ty>> {
    if yields_nothing(s.0) {
        Some(None)
    } else {
        match s.0 {
            Statement::Return(_, None) => Some(Some(Ty::Null)),
            Statement::Return(_, Some(e)) => match static_type(*e) {
                Some(t) => Some(Some(t)),
                None => None,
            },
            _ => None,
        }
    }
}

/// The types that the statements return, in order, where
/// [`static_return`] decides each of them; none otherwise.
pub open spec fn static_returns(ss: Seq<(Statement, Span)>) -> Option<Seq<Ty>>
    decreases ss.len(),
{
    if ss.len() == 0 {
        Some(Seq::empty())
    } else {
        match (static_returns(ss.drop_last()), static_return(ss.last())) {
            (Some(ts), Some(None)) => Some(ts),
            (Some(ts), Some(Some(t))) => Some(ts.push(t)),
            _ => None,
        }
    }
}

/// A block context does not change where a statement stands out of place.
proof fn lemma_misplaced_in_block(s: Statement, cs: Seq<ContextView>, mods: Seq<CommandModifier>)
    ensures
        misplaced_message(s, cs.push(ContextView::Block(mods))) == misplaced_message(s, cs),
{
    let ext = cs.push(ContextView::Block(mods));
    assert(in_loop(ext) == in_loop(cs)) by {
        if in_loop(ext) {
            let i = choose|i: int| 0 <= i < ext.len() && ext[i] is Loop;
            assert(i < cs.len() && cs[i] is Loop);
        }
        if in_loop(cs) {
            let i = choose|i: int| 0 <= i < cs.len() && cs[i] is Loop;
            assert(ext[i] is Loop);
        }
    }
    assert(in_function(ext) == in_function(cs)) by {
        if in_function(ext) {
            let i = choose|i: int| 0 <= i < ext.len() && ext[i] is Function;
            assert(i < cs.len() && cs[i] is Function);
        }
        if in_function(cs) {
            let i = choose|i: int| 0 <= i < cs.len() && cs[i] is Function;
            assert(ext[i] is Function);
        }
    }
    assert(in_function_or_main(ext) == in_function_or_main(cs)) by {
        if in_function_or_main(ext) {
            let i = choose|i: int| 0 <= i < ext.len() && (ext[i] is Function || ext[i] is Main);
            assert(i < cs.len() && (cs[i] is Function || cs[i] is Main));
        }
        if in_function_or_main(cs) {
            let i = choose|i: int| 0 <= i < cs.len() && (cs[i] is Function || cs[i] is Main);
            assert(ext[i] is Function || ext[i] is Main);
        }
    }
}

/// Analyzes the statements of a block, whose definitions are in force up
/// to its end, in the contexts given and that of the block with its
/// modifiers, and gives back the union of the types that its statements
/// return, if any does. A block that failed to parse analyzes nothing.
pub fn analyze_block(
    file_id: FileId,
    file_version: FileVersion,
    block: &(Block, Span),
    files: &mut Files,
    scoped_generic_types: &mut GenericsMap,
    contexts: &[Context],
) -> (r: Option<DataType>)
    requires
        old(scoped_generic_types).wf(),
    ensures
        final(files).extends(old(files)),
        generics_kept(*final(scoped_generic_types), *old(scoped_generic_types)),
        block.0 is Error ==> r is None && final(files).errors() == old(files).errors()
            && final(files).symbol_tables() == old(files).symbol_tables(),
        block.0 matches Block::Block(_, stmnts) && stmnts@.len() == 0 ==> r is None
            && final(files).errors() == old(files).errors() && final(files).symbol_tables() == old(
            files,
        ).symbol_tables(),
        block.0 matches Block::Block(_, stmnts) && (forall|i: int|
            0 <= i < stmnts@.len() ==> yields_nothing(#[trigger] stmnts@[i].0)) ==> r is None,
        block.0 matches Block::Block(_, stmnts) && (exists|i: int|
            0 <= i < stmnts@.len() && #[trigger] stmnts@[i].0 is Return) ==> r is Some,
        block.0 matches Block::Block(_, stmnts) ==> (static_returns(stmnts@) matches Some(ts) ==> if ts.len()
            == 0 {
            r is None
        } else {
            r matches Some(t) && t@ == crate::types::union_of(ts)
        }),
        block.0 matches Block::Block(_, stmnts) ==> forall|i: int|
            0 <= i < stmnts@.len() ==> (#[trigger] misplaced_message(
                stmnts@[i].0,
                crate::analysis::contexts_view(contexts@),
            ) matches Some(m) ==> final(files).errors_of((file_id.0, file_version.0)).contains(
                (m, stmnts@[i].1),
            )),
        block.0 matches Block::Block(mods, stmnts) ==> exists|
            fs: Seq<Files>,
            gs: Seq<GenericsMap>,
            rs: Seq<Option<Ty>>,
        |
            #![trigger stmnts_analyzed(file_id, file_version, stmnts@, Some(block.1.end), crate::analysis::contexts_view(contexts@).push(block_context(mods@)), fs, gs, rs)]
            {
                &&& stmnts_analyzed(
                    file_id,
                    file_version,
                    stmnts@,
                    Some(block.1.end),
                    crate::analysis::contexts_view(contexts@).push(block_context(mods@)),
                    fs,
                    gs,
                    rs,
                )
                &&& fs[0] == *old(files)
                &&& fs.last() == *final(files)
                &&& gs[0] == *old(scoped_generic_types)
                &&& gs.last() == *final(scoped_generic_types)
                &&& opt_ty(r) == if returned_types(rs).len() == 0 {
                    None
                } else {
                    Some(crate::types::union_of(returned_types(rs)))
                }
            },
    decreases block, 2nat,
{
    let ghost g0 = *scoped_generic_types;
    let ghost f0 = *files;
    let ghost k = (file_id.0, file_version.0);
    let ghost cs = crate::analysis::contexts_view(contexts@);
    let ghost mut tr_fs: Seq<Files> = Seq::empty();
    let ghost mut tr_gs: Seq<GenericsMap> = Seq::empty();
    let ghost mut tr_rs: Seq<Option<Ty>> = Seq::empty();
    proof {
        lemma_extends_refl(files);
    }
    let mut types: Vec<DataType> = Vec::new();
    if let Block::Block(modifiers, stmnts) = &block.0 {
        let mut new_contexts = copy_contexts(contexts);
        let mut mods = Vec::new();
        let mut j: usize = 0;
        while j < modifiers.len()
            invariant
                j <= modifiers.len(),
                mods@ == modifiers@.take(j as int).map_values(|m: (CommandModifier, Span)| m.0),
            decreases modifiers.len() - j,
        {
            mods.push(modifiers[j].0);
            j += 1;
            assert(mods@ =~= modifiers@.take(j as int).map_values(|m: (CommandModifier, Span)| m.0));
        }
        assert(modifiers@.take(j as int) =~= modifiers@);
        let ghost before_push = new_contexts@;
        new_contexts.push(Context::Block(BlockContext { modifiers: mods }));
        let ghost cs2 = crate::analysis::contexts_view(new_contexts@);
        proof {
            assert(cs2 =~= crate::analysis::contexts_view(before_push).push(
                ContextView::Block(mods@),
            ));
            assert(stmnts@.take(0) =~= Seq::<(Statement, Span)>::empty());
            assert(cs2 == cs.push(block_context(modifiers@)));
            tr_fs = seq![*files];
            tr_gs = seq![*scoped_generic_types];
            tr_rs = Seq::empty();
        }
        let mut i: usize = 0;
        #[verifier::loop_isolation(false)]
        while i < stmnts.len()
            invariant
                tr_fs.len() == i + 1,
                tr_gs.len() == i + 1,
                tr_rs.len() == i,
                tr_fs[0] == f0,
                tr_gs[0] == g0,
                tr_fs.last() == *files,
                tr_gs.last() == *scoped_generic_types,
                crate::types::view_types(types@) == returned_types(tr_rs),
                forall|jj: int|
                    0 <= jj < i ==> #[trigger] stmnt_analyzed(
                        file_id,
                        file_version,
                        stmnts@[jj],
                        scope_of(Some(block.1.end), stmnts@[jj]),
                        cs2,
                        tr_fs[jj],
                        tr_fs[jj + 1],
                        tr_gs[jj],
                        tr_gs[jj + 1],
                        tr_rs[jj],
                    ),
                i <= stmnts.len(),
                files.extends(&f0),
                f0 == *old(files),
                generics_kept(*scoped_generic_types, g0),
                i == 0 ==> types@.len() == 0 && files.errors() == f0.errors()
                    && files.symbol_tables() == f0.symbol_tables(),
                (forall|j: int| 0 <= j < i ==> yields_nothing(#[trigger] stmnts@[j].0)) ==> types@.len() == 0,
                (exists|j: int| 0 <= j < i && #[trigger] stmnts@[j].0 is Return) ==> types@.len() > 0,
                static_returns(stmnts@.take(i as int)) matches Some(ts) ==> crate::types::view_types(types@)
                    == ts,
                forall|j: int|
                    0 <= j < i ==> (#[trigger] misplaced_message(stmnts@[j].0, cs) matches Some(m)
                        ==> files.errors_of(k).contains((m, stmnts@[j].1))),
            decreases stmnts.len() - i,
        {
            let ghost mid = *files;
            let ghost gmid = *scoped_generic_types;
            let ghost before = types@.len();
            let ghost types_before = types@;
            let result = analyze_stmnt(file_id, file_version, &stmnts[i], files, block.1.end, scoped_generic_types, &new_contexts);
            proof {
                let old_fs = tr_fs;
                let old_gs = tr_gs;
                let old_rs = tr_rs;
                tr_fs = tr_fs.push(*files);
                tr_gs = tr_gs.push(*scoped_generic_types);
                tr_rs = tr_rs.push(opt_ty(result));
                assert forall|jj: int| 0 <= jj < i + 1 implies #[trigger] stmnt_analyzed(
                    file_id,
                    file_version,
                    stmnts@[jj],
                    scope_of(Some(block.1.end), stmnts@[jj]),
                    cs2,
                    tr_fs[jj],
                    tr_fs[jj + 1],
                    tr_gs[jj],
                    tr_gs[jj + 1],
                    tr_rs[jj],
                ) by {
                    if jj < i {
                        assert(tr_fs[jj] == old_fs[jj] && tr_fs[jj + 1] == old_fs[jj + 1]);
                        assert(tr_gs[jj] == old_gs[jj] && tr_gs[jj + 1] == old_gs[jj + 1]);
                        assert(tr_rs[jj] == old_rs[jj]);
                    } else {
                        assert(tr_fs[jj] == mid && tr_fs[jj + 1] == *files);
                        assert(tr_gs[jj] == gmid && tr_gs[jj + 1] == *scoped_generic_types);
                        assert(tr_rs[jj] == opt_ty(result));
                    }
                }
                assert(tr_rs.drop_last() =~= old_rs);
            }
            if let Some(ty) = result {
                types.push(ty);
                proof {
                    crate::types::lemma_view_types_push(types_before, ty);
                }
            }
            proof {
                if forall|j: int| 0 <= j < i + 1 ==> yields_nothing(#[trigger] stmnts@[j].0) {
                    assert(yields_nothing(stmnts@[i as int].0));
                }
                if exists|j: int| 0 <= j < i + 1 && #[trigger] stmnts@[j].0 is Return {
                    let j = choose|j: int| 0 <= j < i + 1 && #[trigger] stmnts@[j].0 is Return;
                    if j == i {
                        assert(types@.len() == before + 1);
                    }
                }
            }
            proof {
                lemma_extends_trans(&f0, &mid, files);
                lemma_misplaced_in_block(stmnts@[i as int].0, cs, mods@);
                assert forall|j: int|
                    0 <= j < i + 1 implies (#[trigger] misplaced_message(stmnts@[j].0, cs) matches Some(m)
                    ==> files.errors_of(k).contains((m, stmnts@[j].1))) by {
                    if let Some(m) = misplaced_message(stmnts@[j].0, cs) {
                        if j < i {
                            lemma_prefix_keeps(mid.errors_of(k), files.errors_of(k), (m, stmnts@[j].1));
                        } else {
                            let e = files.errors_of(k);
                            assert(e[mid.errors_of(k).len() as int] == (m, stmnts@[j].1));
                        }
                    }
                }
                assert(stmnts@.take(i + 1).drop_last() =~= stmnts@.take(i as int));
                assert(stmnts@.take(i + 1).last() == stmnts@[i as int]);
                if static_returns(stmnts@.take(i + 1)) is Some {
                    crate::types::lemma_view_types(types_before);
                    crate::types::lemma_view_types(types@);
                    if types@.len() == before + 1 {
                        assert(crate::types::view_types(types@) =~= crate::types::view_types(
                            types_before,
                        ).push(types@[before as int]@));
                    }
                }
            }
            i += 1;
        }
        proof {
            assert(stmnts@.take(i as int) =~= stmnts@);
            crate::types::lemma_view_types(types@);
            assert(stmnts_analyzed(
                file_id,
                file_version,
                stmnts@,
                Some(block.1.end),
                cs.push(block_context(modifiers@)),
                tr_fs,
                tr_gs,
                tr_rs,
            ));
        }
    }
    if types.len() == 0 {
        None
    } else {
        Some(make_union_type(types))
    }
}


/// Where the definition of a function named over `name` is in force after
/// the analysis of its global statement that ends at `end`: at `end`, in
/// the table of its file, where its name has a span.
pub open spec fn function_defined_at(
    files: &Files,
    file: (FileId, FileVersion),
    name: (String, Span),
    end: usize,
) -> bool {
    let k = crate::files::file_key(file);
    name.1.start < name.1.end ==> {
        &&& files.symbol_tables().contains_key(k)
        &&& crate::files::scope_at(files.symbol_tables()[k], name.0@, end) == Some(
            SymbolLocation { file, start: name.1.start, end: name.1.end },
        )
    }
}

/// The arguments of a function definition that parsed.
pub open spec fn parsed_args(args: Seq<(ArgDecl, Span)>) -> Seq<(ArgDecl, Span)>
    decreases args.len(),
{
    if args.len() == 0 {
        Seq::empty()
    } else {
        let rest = parsed_args(args.drop_last());
        if args.last().0 is Error {
            rest
        } else {
            rest.push(args.last())
        }
    }
}

/// Whether `a` is the argument symbol of the declared argument `d`: its
/// name and whether it is passed by reference, never optional, with the
/// declared type, or a generic id for an argument without a type.
pub open spec fn argument_of(d: ArgDecl, a: crate::analysis::ArgumentView) -> bool {
    match d {
        ArgDecl::Generic((is_ref, _), (name, _)) => a.name == name@ && a.is_ref == is_ref
            && !a.is_optional && a.data_type is Generic,
        ArgDecl::Typed((is_ref, _), (name, _), (ty, _)) => a.name == name@ && a.is_ref == is_ref
            && !a.is_optional && a.data_type == ty@,
        ArgDecl::Error => false,
    }
}

/// The type that a function body returns: `Null` where no statement
/// returns a value, and the union of the returned types otherwise.
pub open spec fn body_type(ts: Seq<Ty>) -> Ty {
    if ts.len() == 0 {
        Ty::Null
    } else {
        crate::types::union_of(ts)
    }
}

/// The message reported where the declared return type of a function does
/// not accept what its body returns; both types are written without
/// resolving generic ids.
pub open spec fn return_mismatch_message(found: Ty, declared: Ty) -> Seq<char> {
    "Function returns type "@ + crate::generics::type_string(
        Map::empty(),
        crate::generics::no_rank(),
        found,
    ) + ", but expected "@ + crate::generics::type_string(
        Map::empty(),
        crate::generics::no_rank(),
        declared,
    )
}

/// Whether `info` is the symbol of the function definition with these
/// parts: its name and span, a definition, with the arguments that parsed
/// as [`argument_of`] says, the compiler flags and no documentation, and
/// the declared return type, or, without one, what the body returns where
/// [`static_returns`] decides it.
pub open spec fn defined_function(
    info: crate::analysis::SymbolInfoView,
    name: (String, Span),
    is_pub: bool,
    compiler_flags: Seq<(CompilerFlag, Span)>,
    args: Seq<(ArgDecl, Span)>,
    declared: Option<(DataType, Span)>,
    body: Seq<(Statement, Span)>,
) -> bool {
    &&& info.name == name.0@
    &&& info.is_definition
    &&& !info.undefined
    &&& info.span == name.1
    &&& match info.symbol_type {
        crate::analysis::SymbolTypeView::Function(f) => {
            &&& f.is_public == is_pub
            &&& f.compiler_flags == compiler_flags.map_values(|c: (CompilerFlag, Span)| c.0)
            &&& f.docs is None
            &&& arguments_match(args, f.arguments)
        },
        _ => false,
    }
    &&& match declared {
        Some(d) => info.data_type == d.0@,
        None => static_returns(body) matches Some(ts) ==> info.data_type == body_type(ts),
    }
}

/// Whether the argument symbols `fa` are those of the parsed arguments
/// among `args`, in order, as [`argument_of`] says.
pub open spec fn arguments_match(args: Seq<(ArgDecl, Span)>, fa: Seq<(crate::analysis::ArgumentView, Span)>) -> bool {
    &&& fa.len() == parsed_args(args).len()
    &&& forall|i: int|
        0 <= i < fa.len() ==> #[trigger] argument_of(parsed_args(args)[i].0, fa[i].0) && fa[i].1
            == parsed_args(args)[i].1
}

/// [`defined_function`] holds where each of its parts does.
proof fn lemma_defined_function(
    info: crate::analysis::SymbolInfoView,
    name: (String, Span),
    is_pub: bool,
    compiler_flags: Seq<(CompilerFlag, Span)>,
    args: Seq<(ArgDecl, Span)>,
    declared: Option<(DataType, Span)>,
    body: Seq<(Statement, Span)>,
    fa: Seq<(crate::analysis::ArgumentView, Span)>,
)
    requires
        info.name == name.0@,
        info.span == name.1,
        info.is_definition && !info.undefined,
        info.symbol_type is Function,
        info.symbol_type->Function_0.is_public == is_pub,
        info.symbol_type->Function_0.docs is None,
        info.symbol_type->Function_0.compiler_flags == compiler_flags.map_values(|c: (CompilerFlag, Span)| c.0),
        info.symbol_type->Function_0.arguments == fa,
        arguments_match(args, fa),
        match declared {
            Some(d) => info.data_type == d.0@,
            None => static_returns(body) matches Some(ts) ==> info.data_type == body_type(ts),
        },
    ensures
        defined_function(info, name, is_pub, compiler_flags, args, declared, body),
{
}

/// Analyzes the definition of a function whose global statement spans
/// `span`: each argument is defined over the rest of the statement, a
/// generic argument with a fresh generic id; the body is analyzed in the
/// context of a function, on a copy of the generic types; the fresh ids are
/// then narrowed to what the body made of them and marked as inferred; a
/// declared return type that does not accept what the body returns is
/// reported; and the function is defined from the end of the statement on,
/// public where it is declared so.
#[verifier::spinoff_prover]
#[verifier::rlimit(40)]
pub fn analyze_function_definition(
    file_id: FileId,
    file_version: FileVersion,
    compiler_flags: &Vec<(CompilerFlag, Span)>,
    is_pub: bool,
    name: &(String, Span),
    args: &Vec<(ArgDecl, Span)>,
    declared: &Option<(DataType, Span)>,
    body: &Vec<(Statement, Span)>,
    span: Span,
    files: &mut Files,
)
    requires
        old(files).wf(),
    ensures
        final(files).wf(),
        final(files).grows(old(files)),
        function_defined_at(final(files), (file_id, file_version), *name, span.end),
        ({
            let k = (file_id.0, file_version.0);
            name.1.start < name.1.end ==> (crate::files::symbol_at(
                final(files).symbol_tables()[k],
                name.1.start,
            ) matches Some(info) && defined_function(info, *name, is_pub, compiler_flags@, args@, *declared, body@))
        }),
        ({
            let k = (file_id.0, file_version.0);
            declared matches Some(d) ==> (static_returns(body@) matches Some(ts) ==> (
            !crate::generics::matches(
                final(files).generics().types(),
                final(files).generics().rank(),
                d.0@,
                body_type(ts),
            ) ==> final(files).errors_of(k).last() == (return_mismatch_message(body_type(ts), d.0@), d.1)))
        }),
        function_analyzed(
            file_id,
            file_version,
            compiler_flags@,
            is_pub,
            *name,
            args@,
            *declared,
            body@,
            span,
            *old(files),
            *final(files),
        ),
{
    let file = (file_id, file_version);
    let k = (file_id.0, file_version.0);
    let ghost f0 = *files;
    proof {
        lemma_extends_refl(files);
    }
    let mut scoped = files.generic_types().clone();
    let mut new_generic_types: Vec<usize> = Vec::new();
    let mut arguments: Vec<(ArgSymbol, Span)> = Vec::new();
    let mut i: usize = 0;
    while i < args.len()
        invariant
            i <= args.len(),
            files.wf(),
            files.grows(&f0),
            scoped.wf(),
            arguments@.len() == parsed_args(args@.take(i as int)).len(),
            forall|j: int|
                0 <= j < arguments@.len() ==> #[trigger] argument_of(
                    parsed_args(args@.take(i as int))[j].0,
                    arguments@[j].0@,
                ) && arguments@[j].1 == parsed_args(args@.take(i as int))[j].1,
        decreases args.len() - i,
    {
        let ghost mid = *files;
        let ghost before_args = arguments@;
        proof {
            assert(args@.take(i + 1).drop_last() =~= args@.take(i as int));
            assert(args@.take(i + 1).last() == args@[i as int]);
        }
        let arg_span = args[i].1;
        let declared_arg = match &args[i].0 {
            ArgDecl::Generic((is_ref, _), (arg_name, arg_name_span)) => {
                let id = scoped.new_generic_id();
                scoped.constrain_acyclic(id, DataType::Any);
                new_generic_types.push(id);
                Some((arg_name, DataType::Generic(id), *arg_name_span, *is_ref))
            },
            ArgDecl::Typed((is_ref, _), (arg_name, arg_name_span), (ty, _)) => Some(
                (arg_name, ty.copy(), *arg_name_span, *is_ref),
            ),
            ArgDecl::Error => None,
        };
        if let Some((arg_name, ty, arg_name_span, is_ref)) = declared_arg {
            arguments.push(
                (
                    ArgSymbol {
                        name: arg_name.clone(),
                        data_type: ty.copy(),
                        is_optional: false,
                        is_ref,
                    },
                    arg_span,
                ),
            );
            let ghost mid2 = *files;
            if let Some(mut table) = files.take_symbol_table(k) {
                insert_symbol_definition(
                    &mut table,
                    &SymbolInfo {
                        name: arg_name.clone(),
                        symbol_type: SymbolType::Variable(VariableSymbol { is_const: false }),
                        data_type: ty,
                        is_definition: true,
                        undefined: false,
                        span: arg_name_span,
                        contexts: Vec::new(),
                    },
                    file,
                    arg_name_span.end..=span.end,
                    false,
                );
                files.put_symbol_table(k, table);
            }
            proof {
                lemma_extends_refl(&mid2);
                assert(files.extends(&mid2));
                lemma_wf(&mid2, files);
                lemma_grows_trans(&mid, &mid2, files);
            }
        }
        proof {
            lemma_grows_trans(&f0, &mid, files);
            let p = parsed_args(args@.take(i + 1));
            if args@[i as int].0 is Error {
                assert(p == parsed_args(args@.take(i as int)));
            } else {
                assert(p == parsed_args(args@.take(i as int)).push(args@[i as int]));
                assert(arguments@.len() == before_args.len() + 1);
                assert forall|j: int| 0 <= j < arguments@.len() implies #[trigger] argument_of(
                    p[j].0,
                    arguments@[j].0@,
                ) && arguments@[j].1 == p[j].1 by {
                    if j < before_args.len() {
                        assert(arguments@[j] == before_args[j]);
                    }
                }
            }
        }
        i += 1;
    }
    proof {
        assert(args@.take(i as int) =~= args@);
    }
    assert(arguments@.len() == parsed_args(args@).len());
    assert(forall|j: int|
        0 <= j < arguments@.len() ==> #[trigger] argument_of(parsed_args(args@)[j].0, arguments@[j].0@)
            && arguments@[j].1 == parsed_args(args@)[j].1);
    let ghost before_body = *files;
    let mut return_types: Vec<DataType> = Vec::new();
    let function_contexts = vec![Context::Function(FunctionContext { compiler_flags: Vec::new() })];
    proof {
        lemma_extends_refl(files);
    }
    let mut j: usize = 0;
    while j < body.len()
        invariant
            j <= body.len(),
            files.extends(&before_body),
            before_body.wf(),
            scoped.wf(),
            static_returns(body@.take(j as int)) matches Some(ts) ==> crate::types::view_types(
                return_types@,
            ) == ts,
        decreases body.len() - j,
    {
        let ghost mid = *files;
        let ghost before = return_types@.len();
        let ghost types_before = return_types@;
        proof {
            lemma_wf(&before_body, files);
        }
        if let Some(ty) = analyze_stmnt(file_id, file_version, &body[j], files, span.end, &mut scoped, &function_contexts) {
            return_types.push(ty);
        }
        proof {
            lemma_extends_trans(&before_body, &mid, files);
            assert(body@.take(j + 1).drop_last() =~= body@.take(j as int));
            assert(body@.take(j + 1).last() == body@[j as int]);
            if static_returns(body@.take(j + 1)) is Some {
                crate::types::lemma_view_types(types_before);
                crate::types::lemma_view_types(return_types@);
                if return_types@.len() == before + 1 {
                    assert(crate::types::view_types(return_types@) =~= crate::types::view_types(
                        types_before,
                    ).push(return_types@[before as int]@));
                }
            }
        }
        j += 1;
    }
    proof {
        assert(body@.take(j as int) =~= body@);
    }
    proof {
        lemma_grows_trans(&f0, &before_body, files);
        lemma_wf(&before_body, files);
    }
    let next_id = scoped.peek_generic_id();
    let ghost before_sync = *files;
    files.set_generic_counter(next_id);
    proof {
        lemma_grows_trans(&f0, &before_sync, files);
    }
    let ghost after_body = *files;
    let mut n: usize = 0;
    while n < new_generic_types.len()
        invariant
            n <= new_generic_types.len(),
            files.wf(),
            files.grows(&after_body),
            scoped.wf(),
        decreases new_generic_types.len() - n,
    {
        let ghost mid = *files;
        let id = new_generic_types[n];
        let narrowed = scoped.get(id);
        files.constrain_generic(id, narrowed);
        let ghost mid2 = *files;
        files.mark_generic_inferred(id);
        proof {
            lemma_grows_trans(&mid, &mid2, files);
            lemma_grows_trans(&after_body, &mid, files);
        }
        n += 1;
    }
    proof {
        lemma_grows_trans(&f0, &after_body, files);
    }
    let return_type = if return_types.len() == 0 {
        DataType::Null
    } else {
        make_union_type(return_types)
    };
    let ghost before_check = *files;
    let data_type = match declared {
        Some((ty, ty_span)) => {
            if !matches_type(ty, &return_type, files.generic_types()) {
                let plain = GenericsMap::new();
                let ghost before_report = *files;
                let mut msg = String::from_str("Function returns type ");
                let found = return_type.to_string(&plain);
                msg.append(found.as_str());
                msg.append(", but expected ");
                let wanted = ty.to_string(&plain);
                msg.append(wanted.as_str());
                files.report_error(&file, msg.as_str(), *ty_span);
                proof {
                    lemma_wf(&before_report, files);
                }
            } else {
                proof {
                    lemma_extends_refl(files);
                }
            }
            ty.copy()
        },
        None => {
            proof {
                lemma_extends_refl(files);
            }
            return_type
        },
    };
    proof {
        lemma_grows_trans(&f0, &before_check, files);
    }
    let mut flags: Vec<CompilerFlag> = Vec::new();
    let mut c: usize = 0;
    while c < compiler_flags.len()
        invariant
            c <= compiler_flags.len(),
            flags@ == compiler_flags@.take(c as int).map_values(|f: (CompilerFlag, Span)| f.0),
        decreases compiler_flags.len() - c,
    {
        flags.push(compiler_flags[c].0);
        c += 1;
        assert(flags@ =~= compiler_flags@.take(c as int).map_values(|f: (CompilerFlag, Span)| f.0));
    }
    assert(compiler_flags@.take(c as int) =~= compiler_flags@);
    let ghost before_def = *files;
    let ghost arguments_ghost = arguments@;
    let ghost arg_views = crate::analysis::argument_views(arguments@);
    proof {
        assert forall|i: int| 0 <= i < arguments@.len() implies arg_views[i] == (
            arguments@[i].0@,
            arguments@[i].1,
        ) by {}
        assert(arguments_ghost.len() == parsed_args(args@).len());
        assert(forall|j: int|
            0 <= j < arguments_ghost.len() ==> #[trigger] argument_of(parsed_args(args@)[j].0, arguments_ghost[j].0@)
                && arguments_ghost[j].1 == parsed_args(args@)[j].1);
        assert forall|i: int| 0 <= i < arg_views.len() implies #[trigger] argument_of(parsed_args(args@)[i].0, arg_views[i].0)
            && arg_views[i].1 == parsed_args(args@)[i].1 by {
            assert(arg_views[i] == (arguments_ghost[i].0@, arguments_ghost[i].1));
            assert(argument_of(parsed_args(args@)[i].0, arguments_ghost[i].0@));
        }
        assert(arg_views.len() == parsed_args(args@).len());
        assert(arguments_match(args@, arg_views));
    }
    let mut table = files.take_or_new_table(k);
    let ghost table_before = table@;
    let info = SymbolInfo {
        name: name.0.clone(),
        symbol_type: SymbolType::Function(
            FunctionSymbol { arguments, is_public: is_pub, compiler_flags: flags, docs: None },
        ),
        data_type,
        is_definition: true,
        undefined: false,
        span: name.1,
        contexts: Vec::new(),
    };
    let scope = span.end..=usize::MAX;
    let ghost scope_view = scope@;
    insert_symbol_definition(&mut table, &info, file, scope, is_pub);
    proof {
        if name.1.start < name.1.end {
            crate::analysis::law_definition_found_in_scope(
                table_before,
                info@,
                file,
                scope_view,
                is_pub,
                span.end,
            );
            assert(info@.name == name.0@);
            assert(info@.span == name.1);
            assert(info@.is_definition && !info@.undefined);
            assert(info@.symbol_type is Function);
            assert(info@.symbol_type->Function_0.is_public == is_pub);
            assert(info@.symbol_type->Function_0.docs is None);
            assert(info@.symbol_type->Function_0.compiler_flags == compiler_flags@.map_values(|c: (CompilerFlag, Span)| c.0));
            assert(info@.symbol_type->Function_0.arguments.len() == parsed_args(args@).len());
            assert(info@.symbol_type->Function_0.arguments == arg_views);
            assert(match *declared {
                Some(d) => info@.data_type == d.0@,
                None => static_returns(body@) matches Some(ts) ==> info@.data_type == body_type(ts),
            });
            lemma_defined_function(info@, *name, is_pub, compiler_flags@, args@, *declared, body@, arg_views);
        }
    }
    files.put_symbol_table(k, table);
    proof {
        assert(files.extends(&before_def));
        lemma_wf(&before_def, files);
        lemma_grows_trans(&f0, &before_def, files);
    }
}

/// Analyzes an import from `imported`, the file that the path resolved
/// to, if it resolved: without a file, `File doesn't exist` is reported
/// over the path; without a symbol table for that file, nothing more
/// happens. Each name imported by name is brought in, over its span, where
/// the file defines it publicly and has its symbol, and is reported as
/// unresolved where the file does not define it publicly; an import of
/// everything brings in each public definition whose symbol the file has.
/// The path itself is then recorded over its span, leading to the start of
/// the file.
pub fn analyze_import(
    file_id: FileId,
    file_version: FileVersion,
    is_public_import: bool,
    import_content: &ImportContent,
    path: &(String, Span),
    imported: Option<(FileId, FileVersion)>,
    files: &mut Files,
)
    ensures
        final(files).extends(old(files)),
        imported is None ==> final(files).symbol_tables() == old(files).symbol_tables()
            && final(files).errors_of((file_id.0, file_version.0)) == old(files).errors_of(
            (file_id.0, file_version.0),
        ).push(("File doesn't exist"@, path.1)),
        imported matches Some(f) ==> !old(files).symbol_tables().contains_key(
            crate::files::file_key(f),
        ) ==> final(files).symbol_tables() == old(files).symbol_tables() && final(files).errors()
            == old(files).errors(),
        imported matches Some(f) ==> old(files).symbol_tables().contains_key(
            crate::files::file_key(f),
        ) ==> path.1.start <= path.1.end ==> final(files).symbol_tables().contains_key(
            (file_id.0, file_version.0),
        ) && crate::files::scope_at(
            final(files).symbol_tables()[(file_id.0, file_version.0)],
            path.0@,
            path.1.start,
        ) == Some(SymbolLocation { file: f, start: 0, end: 1 }),
        import_analyzed(file_id, file_version, *path, imported, *old(files), *final(files)),
{
    let file = (file_id, file_version);
    let k = (file_id.0, file_version.0);
    let imported_file = match imported {
        Some(f) => f,
        None => {
            files.report_error(&file, "File doesn't exist", path.1);
            return;
        },
    };
    let ik = (imported_file.0.0, imported_file.1.0);
    let ghost f0 = *files;
    proof {
        lemma_extends_refl(files);
    }
    let source = match files.take_symbol_table(ik) {
        Some(t) => t,
        None => return,
    };
    let mut found: Vec<(SymbolInfo, SymbolLocation, Option<Span>)> = Vec::new();
    let mut unresolved: Vec<(String, Span)> = Vec::new();
    match import_content {
        ImportContent::ImportSpecific(idents) => {
            let mut i: usize = 0;
            while i < idents.len()
                invariant
                    i <= idents.len(),
                decreases idents.len() - i,
            {
                let ident = &idents[i].0;
                let ident_span = idents[i].1;
                match source.public_definitions.get(ident) {
                    Some(location) => match source.symbols.get(location.start) {
                        Some(info) => {
                            let brought = SymbolInfo {
                                name: ident.clone(),
                                symbol_type: info.symbol_type,
                                data_type: info.data_type,
                                is_definition: false,
                                undefined: false,
                                span: ident_span,
                                contexts: Vec::new(),
                            };
                            found.push((brought, *location, Some(ident_span)));
                        },
                        None => {},
                    },
                    None => {
                        unresolved.push((ident.clone(), ident_span));
                    },
                }
                i += 1;
            }
        },
        ImportContent::ImportAll => {
            let names = source.public_definitions.keys();
            let mut i: usize = 0;
            while i < names.len()
                invariant
                    i <= names.len(),
                decreases names.len() - i,
            {
                match source.public_definitions.get(&names[i]) {
                    Some(location) => match source.symbols.get(location.start) {
                        Some(info) => {
                            let brought = SymbolInfo {
                                name: info.name,
                                symbol_type: info.symbol_type,
                                data_type: info.data_type,
                                is_definition: false,
                                undefined: false,
                                span: info.span,
                                contexts: Vec::new(),
                            };
                            found.push((brought, *location, None));
                        },
                        None => {},
                    },
                    None => {},
                }
                i += 1;
            }
        },
    }
    files.put_symbol_table(ik, source);
    proof {
        assert(files.extends(&f0));
    }
    let mut u: usize = 0;
    while u < unresolved.len()
        invariant
            u <= unresolved.len(),
            files.extends(&f0),
            files.symbol_tables() == f0.symbol_tables().insert(ik, f0.symbol_tables()[ik]),
        decreases unresolved.len() - u,
    {
        let ghost mid = *files;
        let mut msg = String::from_str("Could not resolve '");
        msg.append(unresolved[u].0.as_str());
        msg.append("'");
        files.report_error(&file, msg.as_str(), unresolved[u].1);
        proof {
            lemma_extends_trans(&f0, &mid, files);
        }
        u += 1;
    }
    let ghost mid = *files;
    let mut table = files.take_or_new_table(k);
    let mut m: usize = 0;
    while m < found.len()
        invariant
            m <= found.len(),
        decreases found.len() - m,
    {
        let symbol_span = match found[m].2 {
            Some(sp) => Some(sp.start..=sp.end),
            None => None,
        };
        import_symbol(&mut table, &found[m].0, symbol_span, &found[m].1, is_public_import);
        m += 1;
    }
    let path_info = SymbolInfo {
        name: path.0.clone(),
        symbol_type: SymbolType::ImportPath,
        data_type: DataType::Null,
        is_definition: false,
        undefined: false,
        span: path.1,
        contexts: Vec::new(),
    };
    import_symbol(
        &mut table,
        &path_info,
        Some(path.1.start..=path.1.end),
        &SymbolLocation { file: imported_file, start: 0, end: 1 },
        false,
    );
    files.put_symbol_table(k, table);
    proof {
        assert(files.extends(&mid));
        lemma_extends_trans(&f0, &mid, files);
    }
}

/// How many of the first `i` global statements are imports.
pub open spec fn imports_before(ast: Seq<(GlobalStatement, Span)>, i: int) -> nat
    decreases i,
{
    if i <= 0 {
        0
    } else {
        imports_before(ast, i - 1) + if ast[i - 1].0 is Import {
            1nat
        } else {
            0nat
        }
    }
}

/// Whether the import that is global statement `i` resolved to no file.
pub open spec fn unresolved_import(
    ast: Seq<(GlobalStatement, Span)>,
    imports: Seq<Option<(FileId, FileVersion)>>,
    i: int,
) -> bool {
    &&& ast[i].0 is Import
    &&& (imports_before(ast, i) >= imports.len() || imports[imports_before(ast, i) as int] is None)
}

/// The span of the path of an import statement.
pub open spec fn import_path_span(g: GlobalStatement) -> Span {
    match g {
        GlobalStatement::Import(_, _, _, _, path) => path.1,
        _ => Span { start: 0, end: 0 },
    }
}

/// Whether the global statement at `i` holds a statement that stands out
/// of place and reports `e`, as [`misplaced_message`] says: a statement
/// of the file, outside of any context, or one of the main block, in its
/// context.
pub open spec fn misplaced_in(ast: Seq<(GlobalStatement, Span)>, i: int, e: (Seq<char>, Span)) -> bool {
    match ast[i].0 {
        GlobalStatement::Statement(st) => misplaced_message(st.0, Seq::empty()) == Some(e.0) && e.1 == st.1,
        GlobalStatement::Main(_, _, body) => exists|j: int|
            0 <= j < body.len() && #[trigger] misplaced_message(body[j].0, seq![ContextView::Main]) == Some(
                e.0,
            ) && e.1 == body[j].1,
        _ => false,
    }
}

/// What the analysis of a function definition states, from the files
/// `before` to `after`: the clauses of [`analyze_function_definition`].
pub open spec fn function_analyzed(
    file_id: FileId,
    file_version: FileVersion,
    compiler_flags: Seq<(CompilerFlag, Span)>,
    is_pub: bool,
    name: (String, Span),
    args: Seq<(ArgDecl, Span)>,
    declared: Option<(DataType, Span)>,
    body: Seq<(Statement, Span)>,
    span: Span,
    before: Files,
    after: Files,
) -> bool {
    let k = (file_id.0, file_version.0);
    &&& after.wf()
    &&& after.grows(&before)
    &&& function_defined_at(&after, (file_id, file_version), name, span.end)
    &&& name.1.start < name.1.end ==> (crate::files::symbol_at(after.symbol_tables()[k], name.1.start) matches Some(
        info,
    ) && defined_function(info, name, is_pub, compiler_flags, args, declared, body))
    &&& declared matches Some(d) ==> (static_returns(body) matches Some(ts) ==> (!crate::generics::matches(
        after.generics().types(),
        after.generics().rank(),
        d.0@,
        body_type(ts),
    ) ==> after.errors_of(k).last() == (return_mismatch_message(body_type(ts), d.0@), d.1)))
}

/// What the analysis of an import of `path` from `imported` states, from
/// the files `before` to `after`: the clauses of [`analyze_import`].
pub open spec fn import_analyzed(
    file_id: FileId,
    file_version: FileVersion,
    path: (String, Span),
    imported: Option<(FileId, FileVersion)>,
    before: Files,
    after: Files,
) -> bool {
    let k = (file_id.0, file_version.0);
    &&& after.extends(&before)
    &&& imported is None ==> after.symbol_tables() == before.symbol_tables() && after.errors_of(k)
        == before.errors_of(k).push(("File doesn't exist"@, path.1))
    &&& imported matches Some(f) ==> !before.symbol_tables().contains_key(crate::files::file_key(f))
        ==> after.symbol_tables() == before.symbol_tables() && after.errors() == before.errors()
    &&& imported matches Some(f) ==> before.symbol_tables().contains_key(crate::files::file_key(f)) ==> path.1.start
        <= path.1.end ==> after.symbol_tables().contains_key(k) && crate::files::scope_at(
        after.symbol_tables()[k],
        path.0@,
        path.1.start,
    ) == Some(SymbolLocation { file: f, start: 0, end: 1 })
}

/// Whether two generic maps hold the same types, inferred ids, ids per
/// file and rank.
pub open spec fn same_generics(a: GenericsMap, b: GenericsMap) -> bool {
    &&& a.types() == b.types()
    &&& a.inferred_ids() == b.inferred_ids()
    &&& a.ids_per_file() == b.ids_per_file()
    &&& a.rank() == b.rank()
}

/// Whether `fs` traces the analysis of the statements of a main block in
/// turn, each in the context of the main block, with its definitions in
/// force up to its own end, on a copy of the generic types of the files
/// as they stand: statement `j` takes the files from `fs[j]` to
/// `fs[j + 1]`, starting from generic types `gs[j]` and leaving `hs[j]`,
/// and returns `rs[j]`.
pub open spec fn main_analyzed(
    file_id: FileId,
    file_version: FileVersion,
    body: Seq<(Statement, Span)>,
    fs: Seq<Files>,
    gs: Seq<GenericsMap>,
    hs: Seq<GenericsMap>,
    rs: Seq<Option<Ty>>,
) -> bool {
    &&& fs.len() == body.len() + 1
    &&& gs.len() == body.len()
    &&& hs.len() == body.len()
    &&& rs.len() == body.len()
    &&& forall|j: int|
        0 <= j < body.len() ==> #[trigger] stmnt_analyzed(
            file_id,
            file_version,
            body[j],
            body[j].1.end,
            seq![ContextView::Main],
            fs[j],
            fs[j + 1],
            gs[j],
            hs[j],
            rs[j],
        ) && same_generics(gs[j], fs[j].generics())
}

/// What the analysis of one global statement states, from the files
/// `before` to `after`, where `imported` is the file that its path
/// resolved to if it is an import: a function definition as
/// [`function_analyzed`] says; an import as [`import_analyzed`] says; the
/// statements of the main block in turn as [`main_analyzed`] says; and any
/// other statement, outside of any context and in force to the end of the
/// file, on a copy of the generic types, as [`stmnt_analyzed`] says.
pub open spec fn global_analyzed(
    file_id: FileId,
    file_version: FileVersion,
    item: (GlobalStatement, Span),
    imported: Option<(FileId, FileVersion)>,
    before: Files,
    after: Files,
) -> bool {
    match item.0 {
        GlobalStatement::FunctionDefinition(flags, is_pub, _, name, args, declared, body) => function_analyzed(
            file_id,
            file_version,
            flags@,
            is_pub.0,
            name,
            args@,
            declared,
            body@,
            item.1,
            before,
            after,
        ),
        GlobalStatement::Import(_, _, _, _, path) => import_analyzed(
            file_id,
            file_version,
            path,
            imported,
            before,
            after,
        ),
        GlobalStatement::Main(_, _, body) => exists|
            fs: Seq<Files>,
            gs: Seq<GenericsMap>,
            hs: Seq<GenericsMap>,
            rs: Seq<Option<Ty>>,
        |
            #![trigger main_analyzed(file_id, file_version, body@, fs, gs, hs, rs)]
            main_analyzed(file_id, file_version, body@, fs, gs, hs, rs) && fs[0] == before && fs.last()
                == after,
        GlobalStatement::Statement(st) => exists|g0: GenericsMap, g1: GenericsMap, r: Option<Ty>|
            #![trigger stmnt_analyzed(file_id, file_version, st, usize::MAX, Seq::empty(), before, after, g0, g1, r)]
            stmnt_analyzed(file_id, file_version, st, usize::MAX, Seq::empty(), before, after, g0, g1, r)
                && same_generics(g0, before.generics()),
    }
}

/// The file that the import at global statement `i` resolved to, where it
/// is an import and `imports` holds one for it.
pub open spec fn import_target(
    ast: Seq<(GlobalStatement, Span)>,
    imports: Seq<Option<(FileId, FileVersion)>>,
    i: int,
) -> Option<(FileId, FileVersion)> {
    if imports_before(ast, i) < imports.len() {
        imports[imports_before(ast, i) as int]
    } else {
        None
    }
}

/// Analyzes the global statements of a version of a file in order:
/// function definitions, imports, with `imports` holding, in order, the
/// file that the path of each import resolved to, if any, and the main
/// block and other statements, each on a copy of the generic types of the
/// analysis. Imports past the end of `imports` count as unresolved.
pub fn analyze_global_stmnt(
    file_id: FileId,
    file_version: FileVersion,
    ast: &Vec<(GlobalStatement, Span)>,
    imports: &Vec<Option<(FileId, FileVersion)>>,
    files: &mut Files,
)
    requires
        old(files).wf(),
    ensures
        final(files).wf(),
        final(files).grows(old(files)),
        forall|i: int|
            0 <= i < ast@.len() && #[trigger] unresolved_import(ast@, imports@, i)
                ==> final(files).errors_of((file_id.0, file_version.0)).contains(
                ("File doesn't exist"@, import_path_span(ast@[i].0)),
            ),
        forall|i: int, e: (Seq<char>, Span)|
            0 <= i < ast@.len() && #[trigger] misplaced_in(ast@, i, e) ==> final(files).errors_of(
                (file_id.0, file_version.0),
            ).contains(e),
        exists|fs: Seq<Files>|
            #![trigger fs.len()]
            {
                &&& fs.len() == ast@.len() + 1
                &&& fs[0] == *old(files)
                &&& fs.last() == *final(files)
                &&& forall|i: int|
                    0 <= i < ast@.len() ==> #[trigger] global_analyzed(
                        file_id,
                        file_version,
                        ast@[i],
                        import_target(ast@, imports@, i),
                        fs[i],
                        fs[i + 1],
                    )
            },
{
    let ghost f0 = *files;
    let ghost k = (file_id.0, file_version.0);
    proof {
        lemma_extends_refl(files);
    }
    let mut next_import: usize = 0;
    let mut i: usize = 0;
    let ghost mut tr: Seq<Files> = seq![*files];
    while i < ast.len()
        invariant
            i <= ast.len(),
            files.wf(),
            files.grows(&f0),
            tr.len() == i + 1,
            tr[0] == f0,
            tr.last() == *files,
            forall|j: int|
                0 <= j < i ==> #[trigger] global_analyzed(
                    file_id,
                    file_version,
                    ast@[j],
                    import_target(ast@, imports@, j),
                    tr[j],
                    tr[j + 1],
                ),
            k == (file_id.0, file_version.0),
            next_import == imports_before(ast@, i as int),
            next_import <= i,
            forall|j: int|
                0 <= j < i && #[trigger] unresolved_import(ast@, imports@, j) ==> files.errors_of(
                    k,
                ).contains(("File doesn't exist"@, import_path_span(ast@[j].0))),
            forall|j: int, e: (Seq<char>, Span)|
                0 <= j < i && #[trigger] misplaced_in(ast@, j, e) ==> files.errors_of(k).contains(e),
        decreases ast.len() - i,
    {
        let ghost mid = *files;
        let span = ast[i].1;
        match &ast[i].0 {
            GlobalStatement::FunctionDefinition(compiler_flags, (is_pub, _), _, name, args, declared, body) => {
                analyze_function_definition(file_id, file_version, compiler_flags, *is_pub, name, args, declared, body, span, files);
            },
            GlobalStatement::Import((is_public_import, _), _, (content, _), _, path) => {
                let target = if next_import < imports.len() {
                    imports[next_import]
                } else {
                    None
                };
                if next_import < usize::MAX {
                    next_import += 1;
                }
                proof {
                    assert(target == import_target(ast@, imports@, i as int));
                }
                analyze_import(file_id, file_version, *is_public_import, content, path, target, files);
                proof {
                    lemma_wf(&mid, files);
                    if unresolved_import(ast@, imports@, i as int) {
                        let e = files.errors_of(k);
                        assert(e[e.len() - 1] == ("File doesn't exist"@, import_path_span(ast@[i as int].0)));
                    }
                }
            },
            GlobalStatement::Main(_, _, body) => {
                let contexts = vec![Context::Main];
                let ghost cs = seq![ContextView::Main];
                proof {
                    lemma_extends_refl(files);
                    assert(crate::analysis::contexts_view(contexts@) =~= cs);
                }
                let mut j: usize = 0;
                let ghost mut m_fs: Seq<Files> = seq![*files];
                let ghost mut m_gs: Seq<GenericsMap> = Seq::empty();
                let ghost mut m_hs: Seq<GenericsMap> = Seq::empty();
                let ghost mut m_rs: Seq<Option<Ty>> = Seq::empty();
                while j < body.len()
                    invariant
                        j <= body.len(),
                        files.extends(&mid),
                        mid.wf(),
                        m_fs.len() == j + 1,
                        m_gs.len() == j,
                        m_hs.len() == j,
                        m_rs.len() == j,
                        m_fs[0] == mid,
                        m_fs.last() == *files,
                        forall|jj: int|
                            0 <= jj < j ==> #[trigger] stmnt_analyzed(
                                file_id,
                                file_version,
                                body@[jj],
                                body@[jj].1.end,
                                seq![ContextView::Main],
                                m_fs[jj],
                                m_fs[jj + 1],
                                m_gs[jj],
                                m_hs[jj],
                                m_rs[jj],
                            ) && same_generics(m_gs[jj], m_fs[jj].generics()),
                        crate::analysis::contexts_view(contexts@) == cs,
                        cs == seq![ContextView::Main],
                        k == (file_id.0, file_version.0),
                        forall|jj: int|
                            0 <= jj < j ==> (#[trigger] misplaced_message(body@[jj].0, cs) matches Some(m)
                                ==> files.errors_of(k).contains((m, body@[jj].1))),
                    decreases body.len() - j,
                {
                    let ghost mid2 = *files;
                    proof {
                        lemma_wf(&mid, files);
                    }
                    let mut scoped = files.generic_types().clone();
                    let ghost gstart = scoped;
                    let result = analyze_stmnt(file_id, file_version, &body[j], files, body[j].1.end, &mut scoped, &contexts);
                    proof {
                        let old_fs = m_fs;
                        let old_gs = m_gs;
                        let old_hs = m_hs;
                        let old_rs = m_rs;
                        m_fs = m_fs.push(*files);
                        m_gs = m_gs.push(gstart);
                        m_hs = m_hs.push(scoped);
                        m_rs = m_rs.push(opt_ty(result));
                        assert forall|jj: int| 0 <= jj < j + 1 implies #[trigger] stmnt_analyzed(
                            file_id,
                            file_version,
                            body@[jj],
                            body@[jj].1.end,
                            seq![ContextView::Main],
                            m_fs[jj],
                            m_fs[jj + 1],
                            m_gs[jj],
                            m_hs[jj],
                            m_rs[jj],
                        ) && same_generics(m_gs[jj], m_fs[jj].generics()) by {
                            if jj < j {
                                assert(m_fs[jj] == old_fs[jj] && m_fs[jj + 1] == old_fs[jj + 1]);
                                assert(m_gs[jj] == old_gs[jj] && m_hs[jj] == old_hs[jj] && m_rs[jj] == old_rs[jj]);
                            } else {
                                assert(m_fs[jj] == mid2 && m_fs[jj + 1] == *files);
                            }
                        }
                        lemma_extends_trans(&mid, &mid2, files);
                        assert forall|jj: int|
                            0 <= jj < j + 1 implies (#[trigger] misplaced_message(body@[jj].0, cs) matches Some(m)
                            ==> files.errors_of(k).contains((m, body@[jj].1))) by {
                            if let Some(m) = misplaced_message(body@[jj].0, cs) {
                                if jj < j {
                                    lemma_prefix_keeps(mid2.errors_of(k), files.errors_of(k), (m, body@[jj].1));
                                } else {
                                    let e = files.errors_of(k);
                                    assert(e[mid2.errors_of(k).len() as int] == (m, body@[jj].1));
                                }
                            }
                        }
                    }
                    j += 1;
                }
                proof {
                    lemma_wf(&mid, files);
                    assert(main_analyzed(file_id, file_version, body@, m_fs, m_gs, m_hs, m_rs));
                    assert forall|e: (Seq<char>, Span)| #[trigger] misplaced_in(ast@, i as int, e) implies files.errors_of(
                        k,
                    ).contains(e) by {
                        let jj = choose|jj: int|
                            0 <= jj < body@.len() && #[trigger] misplaced_message(body@[jj].0, seq![ContextView::Main])
                                == Some(e.0) && e.1 == body@[jj].1;
                        assert(misplaced_message(body@[jj].0, cs) matches Some(m));
                    }
                }
            },
            GlobalStatement::Statement(stmnt) => {
                let contexts: Vec<Context> = Vec::new();
                let mut scoped = files.generic_types().clone();
                let ghost gstart = scoped;
                proof {
                    assert(crate::analysis::contexts_view(contexts@) =~= Seq::<ContextView>::empty());
                }
                let result = analyze_stmnt(file_id, file_version, stmnt, files, usize::MAX, &mut scoped, &contexts);
                proof {
                    assert(stmnt_analyzed(
                        file_id,
                        file_version,
                        *stmnt,
                        usize::MAX,
                        Seq::empty(),
                        mid,
                        *files,
                        gstart,
                        scoped,
                        opt_ty(result),
                    ) && same_generics(gstart, mid.generics()));
                    lemma_wf(&mid, files);
                    assert forall|e: (Seq<char>, Span)| #[trigger] misplaced_in(ast@, i as int, e) implies files.errors_of(
                        k,
                    ).contains(e) by {
                        let es = files.errors_of(k);
                        assert(es[mid.errors_of(k).len() as int] == e);
                    }
                }
            },
        }
        proof {
            assert(global_analyzed(
                file_id,
                file_version,
                ast@[i as int],
                import_target(ast@, imports@, i as int),
                mid,
                *files,
            ));
            let old_tr = tr;
            tr = tr.push(*files);
            assert forall|j: int| 0 <= j < i + 1 implies #[trigger] global_analyzed(
                file_id,
                file_version,
                ast@[j],
                import_target(ast@, imports@, j),
                tr[j],
                tr[j + 1],
            ) by {
                if j < i {
                    assert(tr[j] == old_tr[j] && tr[j + 1] == old_tr[j + 1]);
                } else {
                    assert(tr[j] == mid && tr[j + 1] == *files);
                }
            }
            lemma_grows_trans(&f0, &mid, files);
            assert(unresolved_import(ast@, imports@, i as int) ==> files.errors_of(k).contains(
                ("File doesn't exist"@, import_path_span(ast@[i as int].0)),
            ));
            assert forall|j: int|
                0 <= j < i + 1 && #[trigger] unresolved_import(ast@, imports@, j) implies files.errors_of(
                k,
            ).contains(("File doesn't exist"@, import_path_span(ast@[j].0))) by {
                if j < i {
                    lemma_prefix_keeps(mid.errors_of(k), files.errors_of(k), (
                        "File doesn't exist"@,
                        import_path_span(ast@[j].0),
                    ));
                }
            }
            assert forall|j: int, e: (Seq<char>, Span)|
                0 <= j < i + 1 && #[trigger] misplaced_in(ast@, j, e) implies files.errors_of(k).contains(e) by {
                if j < i {
                    lemma_prefix_keeps(mid.errors_of(k), files.errors_of(k), e);
                }
            }
        }
        i += 1;
    }
}

/// What a sequence holds, a sequence that begins with it holds too.
proof fn lemma_prefix_keeps<A>(a: Seq<A>, b: Seq<A>, x: A)
    requires
        crate::files::prefix_of(a, b),
        a.contains(x),
    ensures
        b.contains(x),
{
    let j = choose|j: int| 0 <= j < a.len() && a[j] == x;
    assert(b[j] == x);
}

} // verus!
