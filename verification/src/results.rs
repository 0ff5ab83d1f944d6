//! What the analysis of a statement or an expression yields besides its
//! effects on the files: whether it propagates a failure, and the types
//! of the values that its `return` statements give back.

use vstd::prelude::*;

use crate::types::{make_union_type, union_of, view_types, DataType, Ty};

verus! {

/// What the analysis of a statement yields.
#[derive(Debug, PartialEq)]
pub struct StmntAnalysisResult {
    pub is_propagating_failure: bool,
    pub return_ty: Option<DataType>,
}

/// What the analysis of an expression yields.
#[derive(Debug, PartialEq)]
pub struct ExpAnalysisResult {
    pub exp_ty: DataType,
    pub is_propagating_failure: bool,
    pub return_ty: Option<DataType>,
}

/// The return types that a list of results holds, in order.
pub open spec fn stmnt_return_types(rs: Seq<StmntAnalysisResult>) -> Seq<DataType>
    decreases rs.len(),
{
    if rs.len() == 0 {
        Seq::empty()
    } else {
        stmnt_return_types(rs.drop_last()) + match rs.last().return_ty {
            Some(t) => seq![t],
            None => Seq::empty(),
        }
    }
}

/// The return types that a list of results holds, in order.
pub open spec fn exp_return_types(rs: Seq<ExpAnalysisResult>) -> Seq<DataType>
    decreases rs.len(),
{
    if rs.len() == 0 {
        Seq::empty()
    } else {
        exp_return_types(rs.drop_last()) + match rs.last().return_ty {
            Some(t) => seq![t],
            None => Seq::empty(),
        }
    }
}

/// The result that sums up the results of the statements and expressions
/// that a statement is made of: it propagates a failure where one of them
/// does, and its return type is the union of theirs, those of the
/// statements first, where any of them has one.
pub fn get_stmnt_analysis_result(
    stmnt_analysis: Vec<StmntAnalysisResult>,
    exp_analysis: Vec<ExpAnalysisResult>,
) -> (r: StmntAnalysisResult)
    ensures
        r.is_propagating_failure == ((exists|i: int|
            0 <= i < stmnt_analysis@.len()
                && #[trigger] stmnt_analysis@[i].is_propagating_failure) || (exists|i: int|
            0 <= i < exp_analysis@.len() && #[trigger] exp_analysis@[i].is_propagating_failure)),
        ({
            let tys = view_types(stmnt_return_types(stmnt_analysis@) + exp_return_types(
                exp_analysis@,
            ));
            match r.return_ty {
                Some(t) => tys.len() > 0 && t@ == union_of(tys),
                None => tys.len() == 0,
            }
        }),
{
    let mut is_propagating_failure = false;
    let mut return_ty: Vec<DataType> = Vec::new();
    let ghost ss = stmnt_analysis@;
    let ghost es = exp_analysis@;
    let mut i: usize = 0;
    while i < stmnt_analysis.len()
        invariant
            i <= stmnt_analysis.len(),
            ss == stmnt_analysis@,
            is_propagating_failure == exists|j: int|
                0 <= j < i && #[trigger] ss[j].is_propagating_failure,
            view_types(return_ty@) == view_types(stmnt_return_types(ss.take(i as int))),
        decreases stmnt_analysis.len() - i,
    {
        let stmnt = &stmnt_analysis[i];
        proof {
            assert(ss.take(i + 1).drop_last() =~= ss.take(i as int));
        }
        if stmnt.is_propagating_failure {
            is_propagating_failure = true;
        }
        match &stmnt.return_ty {
            Some(ty) => {
                let ghost before = return_ty@;
                let c = ty.copy();
                let ghost cg = c;
                return_ty.push(c);
                proof {
                    crate::types::lemma_view_types_push(before, cg);
                    assert(ss.take(i + 1).last() == ss[i as int]);
                    assert(stmnt_return_types(ss.take(i + 1)) =~= stmnt_return_types(
                        ss.take(i as int),
                    ).push(*ty));
                    crate::types::lemma_view_types_push(
                        stmnt_return_types(ss.take(i as int)),
                        *ty,
                    );
                }
            },
            None => {
                proof {
                    assert(stmnt_return_types(ss.take(i + 1)) =~= stmnt_return_types(
                        ss.take(i as int),
                    ));
                }
            },
        }
        i += 1;
    }
    proof {
        assert(ss.take(i as int) =~= ss);
    }
    let mut k: usize = 0;
    while k < exp_analysis.len()
        invariant
            k <= exp_analysis.len(),
            es == exp_analysis@,
            is_propagating_failure == ((exists|j: int|
                0 <= j < ss.len() && #[trigger] ss[j].is_propagating_failure) || (exists|j: int|
                0 <= j < k && #[trigger] es[j].is_propagating_failure)),
            view_types(return_ty@) == view_types(
                stmnt_return_types(ss) + exp_return_types(es.take(k as int)),
            ),
        decreases exp_analysis.len() - k,
    {
        let exp = &exp_analysis[k];
        proof {
            assert(es.take(k + 1).drop_last() =~= es.take(k as int));
        }
        if exp.is_propagating_failure {
            is_propagating_failure = true;
        }
        match &exp.return_ty {
            Some(ty) => {
                let ghost before = return_ty@;
                let c = ty.copy();
                let ghost cg = c;
                return_ty.push(c);
                proof {
                    crate::types::lemma_view_types_push(before, cg);
                    assert(es.take(k + 1).last() == es[k as int]);
                    assert(exp_return_types(es.take(k + 1)) =~= exp_return_types(
                        es.take(k as int),
                    ).push(*ty));
                    assert(stmnt_return_types(ss) + exp_return_types(es.take(k + 1)) =~= (
                    stmnt_return_types(ss) + exp_return_types(es.take(k as int))).push(*ty));
                    crate::types::lemma_view_types_push(
                        stmnt_return_types(ss) + exp_return_types(es.take(k as int)),
                        *ty,
                    );
                }
            },
            None => {
                proof {
                    assert(exp_return_types(es.take(k + 1)) =~= exp_return_types(es.take(k as int)));
                }
            },
        }
        k += 1;
    }
    proof {
        assert(es.take(k as int) =~= es);
    }
    StmntAnalysisResult {
        is_propagating_failure,
        return_ty: if return_ty.len() > 0 {
            Some(make_union_type(return_ty))
        } else {
            None
        },
    }
}

} // verus!
