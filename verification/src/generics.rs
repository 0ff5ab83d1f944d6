//! The map of generic types: what each generic type id has been inferred
//! to stand for, which ids count as inferred, and which ids belong to
//! which version of which file.
//!
//! A generic id may stand for a type that mentions other generic ids. The
//! functions that follow such links (`get_recursive`, `deref_type`,
//! `matches_type`, ...) end only when the links have no cycle. The map
//! carries a ghost rank for this: every id that the type of an id mentions
//! has a smaller rank than that id.

use vstd::prelude::*;
use vstd::string::StringExecFns;

use crate::shared_maps::{
    id_lists_clone, id_lists_contents, id_lists_get, id_lists_insert, id_lists_new,
    id_lists_remove, id_set_clone, id_set_contains, id_set_contents, id_set_insert, id_set_new,
    id_set_remove, type_table_clone, type_table_contents, type_table_get, type_table_new,
    type_table_entries, type_table_insert, type_table_remove, IdLists, IdSet, TypeTable,
};
use crate::types::{dedup, lemma_view_types, view_type, view_types, DataType, Ty};

verus! {

/// Whether `t` mentions the generic id `g`, at any depth.
pub open spec fn mentions(t: Ty, g: usize) -> bool
    decreases t,
{
    match t {
        Ty::Generic(i) => i == g,
        Ty::Array(x) => mentions(*x, g),
        Ty::Failable(x) => mentions(*x, g),
        Ty::Union(ts) => mentions_seq(ts, g),
        _ => false,
    }
}

/// Whether one of `ts` mentions the generic id `g`.
pub open spec fn mentions_seq(ts: Seq<Ty>, g: usize) -> bool
    decreases ts,
{
    ts.len() > 0 && (mentions(ts[0], g) || mentions_seq(ts.drop_first(), g))
}

pub proof fn lemma_mentions_seq(ts: Seq<Ty>, g: usize)
    ensures
        mentions_seq(ts, g) <==> exists|i: int| 0 <= i < ts.len() && #[trigger] mentions(ts[i], g),
    decreases ts.len(),
{
    if ts.len() > 0 {
        lemma_mentions_seq(ts.drop_first(), g);
        if mentions(ts[0], g) {
            assert(0 <= 0 < ts.len() && mentions(ts[0], g));
        }
        if mentions_seq(ts.drop_first(), g) {
            let i = choose|i: int| 0 <= i < ts.drop_first().len() && #[trigger] mentions(ts.drop_first()[i], g);
            assert(mentions(ts[i + 1], g));
        }
        if exists|i: int| 0 <= i < ts.len() && #[trigger] mentions(ts[i], g) {
            let i = choose|i: int| 0 <= i < ts.len() && #[trigger] mentions(ts[i], g);
            if i > 0 {
                assert(mentions(ts.drop_first()[i - 1], g));
            }
        }
    }
}

/// One more than the highest rank of a generic id that `t` mentions; 0
/// when it mentions none.
pub open spec fn mu(r: spec_fn(usize) -> nat, t: Ty) -> nat
    decreases t,
{
    match t {
        Ty::Generic(i) => r(i) + 1,
        Ty::Array(x) => mu(r, *x),
        Ty::Failable(x) => mu(r, *x),
        Ty::Union(ts) => mu_seq(r, ts),
        _ => 0,
    }
}

pub open spec fn mu_seq(r: spec_fn(usize) -> nat, ts: Seq<Ty>) -> nat
    decreases ts,
{
    if ts.len() == 0 {
        0
    } else {
        let a = mu(r, ts[0]);
        let b = mu_seq(r, ts.drop_first());
        if a >= b {
            a
        } else {
            b
        }
    }
}

/// `r` ranks the generic ids of `m`: each id that the type of an id
/// mentions has a smaller rank than the id.
pub open spec fn ranked(m: Map<usize, Ty>, r: spec_fn(usize) -> nat) -> bool {
    forall|id: usize, g: usize|
        #![trigger m[id], r(g)]
        m.contains_key(id) && mentions(m[id], g) ==> r(g) < r(id)
}

/// The type that the id stands for: `Any` where the map has none.
pub open spec fn type_of(m: Map<usize, Ty>, id: usize) -> Ty {
    if m.contains_key(id) {
        m[id]
    } else {
        Ty::Any
    }
}

pub proof fn lemma_mu_seq_member(r: spec_fn(usize) -> nat, ts: Seq<Ty>, i: int)
    requires
        0 <= i < ts.len(),
    ensures
        mu(r, ts[i]) <= mu_seq(r, ts),
    decreases ts.len(),
{
    if i > 0 {
        lemma_mu_seq_member(r, ts.drop_first(), i - 1);
        assert(ts.drop_first()[i - 1] == ts[i]);
    }
}

/// Every id that `t` mentions ranks below `mu(r, t)`.
pub proof fn lemma_mentions_below_mu(r: spec_fn(usize) -> nat, t: Ty, g: usize)
    requires
        mentions(t, g),
    ensures
        r(g) < mu(r, t),
    decreases t,
{
    match t {
        Ty::Array(x) => lemma_mentions_below_mu(r, *x, g),
        Ty::Failable(x) => lemma_mentions_below_mu(r, *x, g),
        Ty::Union(ts) => {
            lemma_mentions_seq(ts, g);
            let i = choose|i: int| 0 <= i < ts.len() && #[trigger] mentions(ts[i], g);
            assert(decreases_to!(t => t->Union_0));
            lemma_mentions_below_mu(r, ts[i], g);
            lemma_mu_seq_member(r, ts, i);
        },
        _ => {},
    }
}

/// Where every id that `t` mentions ranks below `k`, `mu(r, t)` is at
/// most `k`.
pub proof fn lemma_mu_at_most(r: spec_fn(usize) -> nat, t: Ty, k: nat)
    requires
        forall|g: usize| mentions(t, g) ==> r(g) < k,
    ensures
        mu(r, t) <= k,
    decreases t,
{
    match t {
        Ty::Generic(i) => {
            assert(mentions(t, i));
        },
        Ty::Array(x) => {
            assert forall|g: usize| mentions(*x, g) implies r(g) < k by {
                assert(mentions(t, g));
            }
            lemma_mu_at_most(r, *x, k);
        },
        Ty::Failable(x) => {
            assert forall|g: usize| mentions(*x, g) implies r(g) < k by {
                assert(mentions(t, g));
            }
            lemma_mu_at_most(r, *x, k);
        },
        Ty::Union(ts) => {
            assert(decreases_to!(t => t->Union_0));
            assert forall|g: usize, i: int| 0 <= i < ts.len() && #[trigger] mentions(ts[i], g) implies r(g) < k by {
                lemma_mentions_seq(ts, g);
                assert(mentions(t, g));
            }
            lemma_mu_seq_at_most(r, ts, k);
        },
        _ => {},
    }
}

pub proof fn lemma_mu_seq_at_most(r: spec_fn(usize) -> nat, ts: Seq<Ty>, k: nat)
    requires
        forall|g: usize, i: int| 0 <= i < ts.len() && #[trigger] mentions(ts[i], g) ==> r(g) < k,
    ensures
        mu_seq(r, ts) <= k,
    decreases ts,
{
    if ts.len() > 0 {
        assert forall|g: usize| mentions(ts[0], g) implies r(g) < k by {
            assert(mentions(ts[0], g));
        }
        lemma_mu_at_most(r, ts[0], k);
        let rest = ts.drop_first();
        assert forall|g: usize, i: int| 0 <= i < rest.len() && #[trigger] mentions(rest[i], g) implies r(g) < k by {
            assert(rest[i] == ts[i + 1]);
        }
        lemma_mu_seq_at_most(r, rest, k);
    }
}

/// The type that an id stands for ranks below the id.
pub proof fn lemma_type_of_mu(m: Map<usize, Ty>, r: spec_fn(usize) -> nat, id: usize)
    requires
        ranked(m, r),
    ensures
        mu(r, type_of(m, id)) <= r(id),
{
    if m.contains_key(id) {
        assert forall|g: usize| mentions(type_of(m, id), g) implies r(g) < r(id) by {
            assert(m.contains_key(id) && mentions(m[id], g) ==> r(g) < r(id));
        }
        lemma_mu_at_most(r, type_of(m, id), r(id));
    }
}

pub proof fn lemma_mu_seq_rest(r: spec_fn(usize) -> nat, ts: Seq<Ty>)
    requires
        ts.len() > 0,
    ensures
        mu(r, ts[0]) <= mu_seq(r, ts),
        mu_seq(r, ts.drop_first()) <= mu_seq(r, ts),
{
}

/// Whether `t` leads to the generic id `g` through the links that
/// `has_ref_to_generic` follows: a generic id (to the type that it stands
/// for), the member of an array and the members of a union. The member of
/// a failable type is not followed.
pub open spec fn refers_to(m: Map<usize, Ty>, r: spec_fn(usize) -> nat, t: Ty, g: usize) -> bool
    decreases mu(r, t), t,
    when ranked(m, r)
    via refers_to_decreases
{
    match t {
        Ty::Generic(i) => i == g || refers_to(m, r, type_of(m, i), g),
        Ty::Union(ts) => refers_seq(m, r, ts, g),
        Ty::Array(x) => refers_to(m, r, *x, g),
        _ => false,
    }
}

/// Whether one of `ts` leads to `g`, as [`refers_to`] says.
pub open spec fn refers_seq(m: Map<usize, Ty>, r: spec_fn(usize) -> nat, ts: Seq<Ty>, g: usize) -> bool
    decreases mu_seq(r, ts), ts,
    when ranked(m, r)
    via refers_seq_decreases
{
    ts.len() > 0 && (refers_to(m, r, ts[0], g) || refers_seq(m, r, ts.drop_first(), g))
}

#[via_fn]
proof fn refers_to_decreases(m: Map<usize, Ty>, r: spec_fn(usize) -> nat, t: Ty, g: usize) {
    if let Ty::Generic(i) = t {
        lemma_type_of_mu(m, r, i);
    }
}

#[via_fn]
proof fn refers_seq_decreases(m: Map<usize, Ty>, r: spec_fn(usize) -> nat, ts: Seq<Ty>, g: usize) {
    if ts.len() > 0 {
        lemma_mu_seq_rest(r, ts);
    }
}

/// Whether `t` leads to the generic id `g` through any link: a generic id
/// (to the type that it stands for), and the member of an array, of a
/// failable type or of a union.
pub open spec fn reaches(m: Map<usize, Ty>, r: spec_fn(usize) -> nat, t: Ty, g: usize) -> bool
    decreases mu(r, t), t,
    when ranked(m, r)
    via reaches_decreases
{
    match t {
        Ty::Generic(i) => i == g || reaches(m, r, type_of(m, i), g),
        Ty::Union(ts) => reaches_seq(m, r, ts, g),
        Ty::Array(x) => reaches(m, r, *x, g),
        Ty::Failable(x) => reaches(m, r, *x, g),
        _ => false,
    }
}

/// Whether one of `ts` leads to `g`, as [`reaches`] says.
pub open spec fn reaches_seq(m: Map<usize, Ty>, r: spec_fn(usize) -> nat, ts: Seq<Ty>, g: usize) -> bool
    decreases mu_seq(r, ts), ts,
    when ranked(m, r)
    via reaches_seq_decreases
{
    ts.len() > 0 && (reaches(m, r, ts[0], g) || reaches_seq(m, r, ts.drop_first(), g))
}

#[via_fn]
proof fn reaches_decreases(m: Map<usize, Ty>, r: spec_fn(usize) -> nat, t: Ty, g: usize) {
    if let Ty::Generic(i) = t {
        lemma_type_of_mu(m, r, i);
    }
}

#[via_fn]
proof fn reaches_seq_decreases(m: Map<usize, Ty>, r: spec_fn(usize) -> nat, ts: Seq<Ty>, g: usize) {
    if ts.len() > 0 {
        lemma_mu_seq_rest(r, ts);
    }
}

/// The id at the end of the chain of ids that stand for generic ids,
/// starting at `id`.
pub open spec fn chain_end(m: Map<usize, Ty>, r: spec_fn(usize) -> nat, id: usize) -> usize
    decreases r(id),
    when ranked(m, r)
    via chain_end_decreases
{
    match type_of(m, id) {
        Ty::Generic(j) => chain_end(m, r, j),
        _ => id,
    }
}

#[via_fn]
proof fn chain_end_decreases(m: Map<usize, Ty>, r: spec_fn(usize) -> nat, id: usize) {
    if let Ty::Generic(j) = type_of(m, id) {
        assert(mentions(type_of(m, id), j));
        assert(m.contains_key(id) && mentions(m[id], j) ==> r(j) < r(id));
    }
}

/// The ids that the type of `id` mentions rank below `id`.
pub proof fn lemma_type_of_ranked(m: Map<usize, Ty>, r: spec_fn(usize) -> nat, id: usize, g: usize)
    requires
        ranked(m, r),
        mentions(type_of(m, id), g),
    ensures
        r(g) < r(id),
{
    assert(m.contains_key(id) && mentions(m[id], g) ==> r(g) < r(id));
}

/// Every id that one of `ts` mentions ranks below `k`.
pub open spec fn seq_below(r: spec_fn(usize) -> nat, ts: Seq<Ty>, k: nat) -> bool {
    forall|g: usize| mentions_seq(ts, g) ==> r(g) < k
}

pub proof fn lemma_seq_below_skip(r: spec_fn(usize) -> nat, ts: Seq<Ty>, k: nat, i: int)
    requires
        seq_below(r, ts, k),
        0 <= i <= ts.len(),
    ensures
        seq_below(r, ts.skip(i), k),
{
    assert forall|g: usize| mentions_seq(ts.skip(i), g) implies r(g) < k by {
        lemma_mentions_seq(ts.skip(i), g);
        lemma_mentions_seq(ts, g);
        let j = choose|j: int| 0 <= j < ts.skip(i).len() && #[trigger] mentions(ts.skip(i)[j], g);
        assert(mentions(ts[i + j], g));
    }
}

pub proof fn lemma_seq_below_member(r: spec_fn(usize) -> nat, ts: Seq<Ty>, k: nat, i: int, g: usize)
    requires
        seq_below(r, ts, k),
        0 <= i < ts.len(),
        mentions(ts[i], g),
    ensures
        r(g) < k,
{
    lemma_mentions_seq(ts, g);
}

/// The members of a union that the type of an id is rank below the id.
pub proof fn lemma_union_members_below(m: Map<usize, Ty>, r: spec_fn(usize) -> nat, id: usize)
    requires
        ranked(m, r),
        type_of(m, id) is Union,
    ensures
        seq_below(r, type_of(m, id)->Union_0, r(id) as nat),
{
    let ts = type_of(m, id)->Union_0;
    assert forall|g: usize| mentions_seq(ts, g) implies r(g) < r(id) by {
        assert(mentions(type_of(m, id), g));
        lemma_type_of_ranked(m, r, id, g);
    }
}

/// The type that `id` stands for, with the generic ids that it is, or
/// that stand as its array member, failable member or union members,
/// replaced in turn by what they stand for.
pub open spec fn resolve(m: Map<usize, Ty>, r: spec_fn(usize) -> nat, id: usize) -> Ty
    decreases r(id), type_of(m, id),
    when ranked(m, r)
    via resolve_decreases
{
    match type_of(m, id) {
        Ty::Generic(j) => resolve(m, r, j),
        Ty::Union(ts) => Ty::Union(resolve_members(m, r, id, ts)),
        Ty::Array(x) => match *x {
            Ty::Generic(j) => Ty::Array(Box::new(resolve(m, r, j))),
            y => Ty::Array(Box::new(y)),
        },
        Ty::Failable(x) => match *x {
            Ty::Generic(j) => Ty::Failable(Box::new(resolve(m, r, j))),
            y => Ty::Failable(Box::new(y)),
        },
        t => t,
    }
}

/// The members `ts` of the union that `id` stands for, each generic id
/// among them replaced by what it resolves to.
pub open spec fn resolve_members(m: Map<usize, Ty>, r: spec_fn(usize) -> nat, id: usize, ts: Seq<Ty>) -> Seq<Ty>
    decreases r(id), ts,
    when ranked(m, r) && seq_below(r, ts, r(id) as nat)
    via resolve_members_decreases
{
    if ts.len() == 0 {
        Seq::empty()
    } else {
        let first = match ts[0] {
            Ty::Generic(j) => resolve(m, r, j),
            y => y,
        };
        seq![first] + resolve_members(m, r, id, ts.drop_first())
    }
}

#[via_fn]
proof fn resolve_decreases(m: Map<usize, Ty>, r: spec_fn(usize) -> nat, id: usize) {
    match type_of(m, id) {
        Ty::Generic(j) => {
            lemma_type_of_ranked(m, r, id, j);
        },
        Ty::Union(ts) => {
            assert(decreases_to!(type_of(m, id) => type_of(m, id)->Union_0));
        },
        Ty::Array(x) => {
            if let Ty::Generic(j) = *x {
                assert(mentions(*x, j));
                assert(mentions(type_of(m, id), j));
                lemma_type_of_ranked(m, r, id, j);
            }
        },
        Ty::Failable(x) => {
            if let Ty::Generic(j) = *x {
                assert(mentions(*x, j));
                assert(mentions(type_of(m, id), j));
                lemma_type_of_ranked(m, r, id, j);
            }
        },
        _ => {},
    }
}

#[via_fn]
proof fn resolve_members_decreases(m: Map<usize, Ty>, r: spec_fn(usize) -> nat, id: usize, ts: Seq<Ty>) {
    if ts.len() > 0 {
        if let Ty::Generic(j) = ts[0] {
            assert(mentions(ts[0], j));
            lemma_seq_below_member(r, ts, r(id) as nat, 0, j);
        }
    }
}

/// The type that a type stands for once the ids that count as inferred are
/// resolved: an inferred generic id becomes what it resolves to, and
/// unions, arrays and failable types are taken apart member by member.
pub open spec fn deref(m: Map<usize, Ty>, r: spec_fn(usize) -> nat, inferred: Set<usize>, t: Ty) -> Ty
    decreases t,
{
    match t {
        Ty::Generic(id) => if inferred.contains(id) {
            resolve(m, r, id)
        } else {
            t
        },
        Ty::Union(ts) => Ty::Union(deref_seq(m, r, inferred, ts)),
        Ty::Array(x) => Ty::Array(Box::new(deref(m, r, inferred, *x))),
        Ty::Failable(x) => Ty::Failable(Box::new(deref(m, r, inferred, *x))),
        _ => t,
    }
}

pub open spec fn deref_seq(m: Map<usize, Ty>, r: spec_fn(usize) -> nat, inferred: Set<usize>, ts: Seq<Ty>) -> Seq<Ty>
    decreases ts,
{
    if ts.len() == 0 {
        Seq::empty()
    } else {
        seq![deref(m, r, inferred, ts[0])] + deref_seq(m, r, inferred, ts.drop_first())
    }
}

/// The members of a union, in the type that `id` stands for, once each
/// generic id among them is resolved.
pub proof fn lemma_seq_skip_unfold(ts: Seq<Ty>, i: int)
    requires
        0 <= i < ts.len(),
    ensures
        ts.skip(i)[0] == ts[i],
        ts.skip(i).drop_first() == ts.skip(i + 1),
        ts.skip(i).len() > 0,
{
    assert(ts.skip(i).drop_first() =~= ts.skip(i + 1));
}

/// Whether a type of `current` may be narrowed to the type `new`: `new`
/// is at least as specific. A generic id on either side stands for its
/// type; `Any` is narrowed by everything and narrows nothing else; arrays
/// by their members; a union `new` when each of its members narrows
/// `current`; a union `current` when one of its members is narrowed by
/// `new`; `Error` narrows nothing; otherwise the two must be the same.
pub open spec fn more_specific(m: Map<usize, Ty>, r: spec_fn(usize) -> nat, current: Ty, new: Ty) -> bool
    decreases mu(r, current) + mu(r, new), current, new,
    when ranked(m, r)
    via more_specific_decreases
{
    match (current, new) {
        (Ty::Generic(id), ty) => more_specific(m, r, type_of(m, id), ty),
        (ty, Ty::Generic(id)) => more_specific(m, r, ty, type_of(m, id)),
        (Ty::Any, _) => true,
        (_, Ty::Any) => false,
        (Ty::Array(c), Ty::Array(n)) => more_specific(m, r, *c, *n),
        (_, Ty::Union(ns)) => more_specific_all(m, r, current, ns),
        (Ty::Union(cs), n) => more_specific_any(m, r, cs, n),
        (_, Ty::Error) => false,
        (t1, t2) => t1 == t2,
    }
}

/// Whether each of `news` narrows `current`.
pub open spec fn more_specific_all(m: Map<usize, Ty>, r: spec_fn(usize) -> nat, current: Ty, news: Seq<Ty>) -> bool
    decreases mu(r, current) + mu_seq(r, news), current, news,
    when ranked(m, r)
    via more_specific_all_decreases
{
    news.len() == 0 || (more_specific(m, r, current, news[0]) && more_specific_all(
        m,
        r,
        current,
        news.drop_first(),
    ))
}

/// Whether one of `currents` is narrowed by `new`.
pub open spec fn more_specific_any(m: Map<usize, Ty>, r: spec_fn(usize) -> nat, currents: Seq<Ty>, new: Ty) -> bool
    decreases mu_seq(r, currents) + mu(r, new), currents, new,
    when ranked(m, r)
    via more_specific_any_decreases
{
    currents.len() > 0 && (more_specific(m, r, currents[0], new) || more_specific_any(
        m,
        r,
        currents.drop_first(),
        new,
    ))
}

#[via_fn]
proof fn more_specific_decreases(m: Map<usize, Ty>, r: spec_fn(usize) -> nat, current: Ty, new: Ty) {
    match (current, new) {
        (Ty::Generic(id), ty) => {
            lemma_type_of_mu(m, r, id);
        },
        (ty, Ty::Generic(id)) => {
            lemma_type_of_mu(m, r, id);
        },
        (Ty::Any, _) => {},
        (_, Ty::Any) => {},
        (Ty::Array(c), Ty::Array(n)) => {},
        (_, Ty::Union(ns)) => {
            assert(decreases_to!(new => new->Union_0));
        },
        (Ty::Union(cs), n) => {
            assert(decreases_to!(current => current->Union_0));
        },
        _ => {},
    }
}

#[via_fn]
proof fn more_specific_all_decreases(m: Map<usize, Ty>, r: spec_fn(usize) -> nat, current: Ty, news: Seq<Ty>) {
    if news.len() > 0 {
        lemma_mu_seq_rest(r, news);
    }
}

#[via_fn]
proof fn more_specific_any_decreases(m: Map<usize, Ty>, r: spec_fn(usize) -> nat, currents: Seq<Ty>, new: Ty) {
    if currents.len() > 0 {
        lemma_mu_seq_rest(r, currents);
    }
}

/// The types of the ids after `constraint` is offered to `id`: the id at
/// the end of the chain of generic ids from `id` takes `constraint` as its
/// type, unless `constraint` refers to that id or does not narrow its
/// type; then nothing changes.
pub open spec fn constrained(m: Map<usize, Ty>, r: spec_fn(usize) -> nat, id: usize, constraint: Ty) -> Map<usize, Ty> {
    let e = chain_end(m, r, id);
    if !refers_to(m, r, constraint, e) && more_specific(m, r, type_of(m, e), constraint) {
        m.insert(e, constraint)
    } else {
        m
    }
}

/// The rank after `e` takes the type `c`: the ids that lead to `e` move up
/// by more than any rank that `c` mentions.
pub open spec fn rerank(m: Map<usize, Ty>, r: spec_fn(usize) -> nat, e: usize, c: Ty) -> spec_fn(usize) -> nat {
    |x: usize| r(x) + if reaches(m, r, Ty::Generic(x), e) {
        mu(r, c) + 1
    } else {
        0
    }
}

/// A type that mentions an id that leads to `e` leads to `e` itself.
pub proof fn lemma_mentions_reaches(m: Map<usize, Ty>, r: spec_fn(usize) -> nat, t: Ty, y: usize, e: usize)
    requires
        ranked(m, r),
        mentions(t, y),
        reaches(m, r, Ty::Generic(y), e),
    ensures
        reaches(m, r, t, e),
    decreases t,
{
    match t {
        Ty::Generic(i) => {},
        Ty::Array(x) => {
            lemma_mentions_reaches(m, r, *x, y, e);
        },
        Ty::Failable(x) => {
            lemma_mentions_reaches(m, r, *x, y, e);
        },
        Ty::Union(ts) => {
            lemma_mentions_seq(ts, y);
            let i = choose|i: int| 0 <= i < ts.len() && #[trigger] mentions(ts[i], y);
            assert(decreases_to!(t => t->Union_0));
            lemma_mentions_reaches(m, r, ts[i], y, e);
            lemma_reaches_seq_member(m, r, ts, i, e);
        },
        _ => {},
    }
}

pub proof fn lemma_reaches_seq_member(m: Map<usize, Ty>, r: spec_fn(usize) -> nat, ts: Seq<Ty>, i: int, e: usize)
    requires
        ranked(m, r),
        0 <= i < ts.len(),
        reaches(m, r, ts[i], e),
    ensures
        reaches_seq(m, r, ts, e),
    decreases i,
{
    if i > 0 {
        assert(ts.drop_first()[i - 1] == ts[i]);
        lemma_reaches_seq_member(m, r, ts.drop_first(), i - 1, e);
    }
}

/// Giving the id `e` the type `c` keeps the links free of cycles, where
/// `c` does not lead back to `e`.
pub proof fn lemma_insert_keeps_ranked(m: Map<usize, Ty>, r: spec_fn(usize) -> nat, e: usize, c: Ty)
    requires
        ranked(m, r),
        !reaches(m, r, c, e),
    ensures
        ranked(m.insert(e, c), rerank(m, r, e, c)),
{
    let m2 = m.insert(e, c);
    let r2 = rerank(m, r, e, c);
    assert forall|x: usize, y: usize|
        #![trigger m2[x], r2(y)]
        m2.contains_key(x) && mentions(m2[x], y) implies r2(y) < r2(x) by {
        if x == e {
            lemma_mentions_below_mu(r, c, y);
            if reaches(m, r, Ty::Generic(y), e) {
                lemma_mentions_reaches(m, r, c, y, e);
            }
            assert(reaches(m, r, Ty::Generic(e), e));
        } else {
            assert(m.contains_key(x) && mentions(m[x], y) ==> r(y) < r(x));
            if reaches(m, r, Ty::Generic(y), e) {
                lemma_mentions_reaches(m, r, m[x], y, e);
                assert(type_of(m, x) == m[x]);
                assert(reaches(m, r, Ty::Generic(x), e));
            }
        }
    }
}

/// Where `t` refers to `id`, and `id` stands for the generic id `j`, `t`
/// refers to `j` too.
pub proof fn lemma_refers_to_next(m: Map<usize, Ty>, r: spec_fn(usize) -> nat, t: Ty, id: usize, j: usize)
    requires
        ranked(m, r),
        refers_to(m, r, t, id),
        type_of(m, id) == Ty::Generic(j),
    ensures
        refers_to(m, r, t, j),
    decreases mu(r, t), t,
{
    match t {
        Ty::Generic(i) => {
            lemma_type_of_mu(m, r, i);
            if i != id {
                lemma_refers_to_next(m, r, type_of(m, i), id, j);
            } else {
                assert(refers_to(m, r, Ty::Generic(j), j));
            }
        },
        Ty::Array(x) => {
            lemma_refers_to_next(m, r, *x, id, j);
        },
        Ty::Union(ts) => {
            assert(decreases_to!(t => t->Union_0));
            lemma_refers_seq_next(m, r, ts, id, j);
        },
        _ => {},
    }
}

pub proof fn lemma_refers_seq_next(m: Map<usize, Ty>, r: spec_fn(usize) -> nat, ts: Seq<Ty>, id: usize, j: usize)
    requires
        ranked(m, r),
        refers_seq(m, r, ts, id),
        type_of(m, id) == Ty::Generic(j),
    ensures
        refers_seq(m, r, ts, j),
    decreases mu_seq(r, ts), ts,
{
    lemma_mu_seq_rest(r, ts);
    if refers_to(m, r, ts[0], id) {
        lemma_refers_to_next(m, r, ts[0], id, j);
    } else {
        lemma_refers_seq_next(m, r, ts.drop_first(), id, j);
    }
}

/// Where `t` refers to `id`, it refers to the end of the chain from `id`.
pub proof fn lemma_refers_to_chain_end(m: Map<usize, Ty>, r: spec_fn(usize) -> nat, t: Ty, id: usize)
    requires
        ranked(m, r),
        refers_to(m, r, t, id),
    ensures
        refers_to(m, r, t, chain_end(m, r, id)),
    decreases r(id),
{
    if let Ty::Generic(j) = type_of(m, id) {
        assert(mentions(type_of(m, id), j));
        lemma_type_of_ranked(m, r, id, j);
        lemma_refers_to_next(m, r, t, id, j);
        lemma_refers_to_chain_end(m, r, t, j);
    }
}

/// What an id resolves to mentions only ids that rank below it.
pub proof fn lemma_resolve_below(m: Map<usize, Ty>, r: spec_fn(usize) -> nat, id: usize)
    requires
        ranked(m, r),
    ensures
        forall|g: usize| mentions(resolve(m, r, id), g) ==> r(g) < r(id),
    decreases r(id), type_of(m, id),
{
    let t = type_of(m, id);
    assert forall|g: usize| mentions(t, g) implies r(g) < r(id) by {
        lemma_type_of_ranked(m, r, id, g);
    }
    match t {
        Ty::Generic(j) => {
            assert(mentions(t, j));
            assert(r(j) < r(id));
            lemma_resolve_below(m, r, j);
            assert(resolve(m, r, id) == resolve(m, r, j));
        },
        Ty::Union(ts) => {
            lemma_union_members_below(m, r, id);
            assert(decreases_to!(t => t->Union_0));
            lemma_resolve_members_below(m, r, id, ts);
            assert(resolve(m, r, id) == Ty::Union(resolve_members(m, r, id, ts)));
            assert forall|g: usize| mentions(resolve(m, r, id), g) implies r(g) < r(id) by {
                assert(mentions_seq(resolve_members(m, r, id, ts), g));
            }
        },
        Ty::Array(x) => {
            if let Ty::Generic(j) = *x {
                assert(mentions(*x, j));
                assert(mentions(t, j));
                lemma_resolve_below(m, r, j);
                assert forall|g: usize| mentions(resolve(m, r, id), g) implies r(g) < r(id) by {
                    assert(mentions(resolve(m, r, j), g));
                }
            } else {
                assert(resolve(m, r, id) == t);
            }
        },
        Ty::Failable(x) => {
            if let Ty::Generic(j) = *x {
                assert(mentions(*x, j));
                assert(mentions(t, j));
                lemma_resolve_below(m, r, j);
                assert forall|g: usize| mentions(resolve(m, r, id), g) implies r(g) < r(id) by {
                    assert(mentions(resolve(m, r, j), g));
                }
            } else {
                assert(resolve(m, r, id) == t);
            }
        },
        _ => {
            assert(resolve(m, r, id) == t);
        },
    }
}

pub proof fn lemma_resolve_members_below(m: Map<usize, Ty>, r: spec_fn(usize) -> nat, id: usize, ts: Seq<Ty>)
    requires
        ranked(m, r),
        seq_below(r, ts, r(id) as nat),
    ensures
        seq_below(r, resolve_members(m, r, id, ts), r(id) as nat),
    decreases r(id), ts,
{
    let out = resolve_members(m, r, id, ts);
    if ts.len() > 0 {
        lemma_seq_below_skip(r, ts, r(id) as nat, 1);
        assert(ts.skip(1) =~= ts.drop_first());
        lemma_resolve_members_below(m, r, id, ts.drop_first());
        let rest = resolve_members(m, r, id, ts.drop_first());
        let first = out[0];
        assert(out =~= seq![first] + rest);
        assert forall|g: usize| mentions(first, g) implies r(g) < r(id) by {
            match ts[0] {
                Ty::Generic(j) => {
                    assert(mentions(ts[0], j));
                    lemma_seq_below_member(r, ts, r(id) as nat, 0, j);
                    lemma_resolve_below(m, r, j);
                },
                _ => {
                    lemma_seq_below_member(r, ts, r(id) as nat, 0, g);
                },
            }
        }
        assert forall|g: usize| mentions_seq(out, g) implies r(g) < r(id) by {
            lemma_mentions_seq(out, g);
            lemma_mentions_seq(rest, g);
            let k = choose|k: int| 0 <= k < out.len() && #[trigger] mentions(out[k], g);
            if k > 0 {
                assert(rest[k - 1] == out[k]);
            }
        }
    } else {
        assert forall|g: usize| mentions_seq(out, g) implies r(g) < r(id) by {}
    }
}

/// `mu` of what an id resolves to is at most the id's rank.
pub proof fn lemma_resolve_mu(m: Map<usize, Ty>, r: spec_fn(usize) -> nat, id: usize)
    requires
        ranked(m, r),
    ensures
        mu(r, resolve(m, r, id)) <= r(id),
{
    lemma_resolve_below(m, r, id);
    lemma_mu_at_most(r, resolve(m, r, id), r(id));
}

/// Whether a value of type `given` is accepted where `expected` is
/// expected. A generic id on either side stands for what it resolves to; a
/// union `given` when each member is accepted; a union `expected` when one
/// of its members accepts `given`; arrays by their members; `Any` on either
/// side accepts; `Error` on either side does not; a failable type by its
/// member; otherwise the two must be the same.
pub open spec fn matches(m: Map<usize, Ty>, r: spec_fn(usize) -> nat, expected: Ty, given: Ty) -> bool
    decreases mu(r, expected) + mu(r, given), expected, given,
    when ranked(m, r)
    via matches_decreases
{
    match (expected, given) {
        (Ty::Generic(id), _) => matches(m, r, resolve(m, r, id), given),
        (_, Ty::Generic(id)) => matches(m, r, expected, resolve(m, r, id)),
        (_, Ty::Union(gs)) => matches_all(m, r, expected, gs),
        (Ty::Union(es), g) => matches_any(m, r, es, g),
        (Ty::Array(e), Ty::Array(g)) => matches(m, r, *e, *g),
        (Ty::Any, _) => true,
        (_, Ty::Any) => true,
        (Ty::Error, _) => false,
        (_, Ty::Error) => false,
        (e, Ty::Failable(g)) => matches(m, r, e, *g),
        (Ty::Failable(e), g) => matches(m, r, *e, g),
        (t1, t2) => t1 == t2,
    }
}

/// Whether each of `givens` is accepted where `expected` is expected.
pub open spec fn matches_all(m: Map<usize, Ty>, r: spec_fn(usize) -> nat, expected: Ty, givens: Seq<Ty>) -> bool
    decreases mu(r, expected) + mu_seq(r, givens), expected, givens,
    when ranked(m, r)
    via matches_all_decreases
{
    givens.len() == 0 || (matches(m, r, expected, givens[0]) && matches_all(
        m,
        r,
        expected,
        givens.drop_first(),
    ))
}

/// Whether one of `expecteds` accepts `given`.
pub open spec fn matches_any(m: Map<usize, Ty>, r: spec_fn(usize) -> nat, expecteds: Seq<Ty>, given: Ty) -> bool
    decreases mu_seq(r, expecteds) + mu(r, given), expecteds, given,
    when ranked(m, r)
    via matches_any_decreases
{
    expecteds.len() > 0 && (matches(m, r, expecteds[0], given) || matches_any(
        m,
        r,
        expecteds.drop_first(),
        given,
    ))
}

#[via_fn]
proof fn matches_decreases(m: Map<usize, Ty>, r: spec_fn(usize) -> nat, expected: Ty, given: Ty) {
    match (expected, given) {
        (Ty::Generic(id), _) => {
            lemma_resolve_mu(m, r, id);
        },
        (_, Ty::Generic(id)) => {
            lemma_resolve_mu(m, r, id);
        },
        (_, Ty::Union(gs)) => {
            assert(decreases_to!(given => given->Union_0));
        },
        (Ty::Union(es), g) => {
            assert(decreases_to!(expected => expected->Union_0));
        },
        _ => {},
    }
}

#[via_fn]
proof fn matches_all_decreases(m: Map<usize, Ty>, r: spec_fn(usize) -> nat, expected: Ty, givens: Seq<Ty>) {
    if givens.len() > 0 {
        lemma_mu_seq_rest(r, givens);
    }
}

#[via_fn]
proof fn matches_any_decreases(m: Map<usize, Ty>, r: spec_fn(usize) -> nat, expecteds: Seq<Ty>, given: Ty) {
    if expecteds.len() > 0 {
        lemma_mu_seq_rest(r, expecteds);
    }
}

/// The strings of `ss` with `sep` between each two of them.
pub open spec fn join(ss: Seq<Seq<char>>, sep: Seq<char>) -> Seq<char>
    decreases ss.len(),
{
    if ss.len() == 0 {
        Seq::empty()
    } else if ss.len() == 1 {
        ss[0]
    } else {
        join(ss.drop_last(), sep) + sep + ss.last()
    }
}

/// How a type is written: generic ids are written as the types they stand
/// for, the members of a union once each, in order, with ` | ` between
/// them, and the member of a failable type followed by `?`, in
/// parentheses where it is a union.
pub open spec fn type_string(m: Map<usize, Ty>, r: spec_fn(usize) -> nat, t: Ty) -> Seq<char>
    decreases mu(r, t), t,
    when ranked(m, r)
    via type_string_decreases
{
    match t {
        Ty::Any => "Any"@,
        Ty::Number => "Num"@,
        Ty::Boolean => "Bool"@,
        Ty::Text => "Text"@,
        Ty::Null => "Null"@,
        Ty::Array(x) => "["@ + type_string(m, r, *x) + "]"@,
        Ty::Union(ts) => join(dedup(type_strings(m, r, ts)), " | "@),
        Ty::Generic(id) => type_string(m, r, type_of(m, id)),
        Ty::Failable(x) => if *x is Union {
            "("@ + type_string(m, r, *x) + ")?"@
        } else {
            type_string(m, r, *x) + "?"@
        },
        Ty::Error => "<Invalid type>"@,
    }
}

/// How each of `ts` is written, in order.
pub open spec fn type_strings(m: Map<usize, Ty>, r: spec_fn(usize) -> nat, ts: Seq<Ty>) -> Seq<Seq<char>>
    decreases mu_seq(r, ts), ts,
    when ranked(m, r)
    via type_strings_decreases
{
    if ts.len() == 0 {
        Seq::empty()
    } else {
        seq![type_string(m, r, ts[0])] + type_strings(m, r, ts.drop_first())
    }
}

#[via_fn]
proof fn type_string_decreases(m: Map<usize, Ty>, r: spec_fn(usize) -> nat, t: Ty) {
    match t {
        Ty::Generic(id) => {
            lemma_type_of_mu(m, r, id);
        },
        Ty::Union(ts) => {
            assert(decreases_to!(t => t->Union_0));
        },
        _ => {},
    }
}

#[via_fn]
proof fn type_strings_decreases(m: Map<usize, Ty>, r: spec_fn(usize) -> nat, ts: Seq<Ty>) {
    if ts.len() > 0 {
        lemma_mu_seq_rest(r, ts);
    }
}

pub proof fn lemma_type_strings(m: Map<usize, Ty>, r: spec_fn(usize) -> nat, ts: Seq<Ty>)
    requires
        ranked(m, r),
    ensures
        type_strings(m, r, ts).len() == ts.len(),
        forall|k: int| 0 <= k < ts.len() ==> #[trigger] type_strings(m, r, ts)[k] == type_string(m, r, ts[k]),
    decreases ts.len(),
{
    if ts.len() > 0 {
        lemma_type_strings(m, r, ts.drop_first());
        assert forall|k: int| 0 <= k < ts.len() implies #[trigger] type_strings(m, r, ts)[k] == type_string(m, r, ts[k]) by {
            if k > 0 {
                assert(ts.drop_first()[k - 1] == ts[k]);
            }
        }
    }
}

/// The views of a list of strings.
pub open spec fn string_views(ss: Seq<String>) -> Seq<Seq<char>> {
    ss.map_values(|s: String| s@)
}

/// The ids of `entries`, in order.
pub open spec fn entry_ids(entries: Seq<(usize, DataType)>) -> Seq<usize> {
    entries.map_values(|e: (usize, DataType)| e.0)
}

/// Each id of `ids` is smaller than the next.
pub open spec fn increasing(ids: Seq<usize>) -> bool {
    forall|i: int, j: int| 0 <= i < j < ids.len() ==> ids[i] < ids[j]
}

/// How the type of each of `ids` is written, in order.
pub open spec fn listing(m: Map<usize, Ty>, r: spec_fn(usize) -> nat, ids: Seq<usize>) -> Seq<Seq<char>> {
    ids.map_values(|id: usize| type_string(m, r, m[id]))
}

/// The map from generic type ids to the types that the analysis has
/// inferred for them.
pub struct GenericsMap {
    map: TypeTable,
    inferred: IdSet,
    generics_per_file: IdLists,
    rank: Ghost<spec_fn(usize) -> nat>,
    next_id: usize,
}

impl GenericsMap {
    /// The type that each id stands for.
    pub closed spec fn types(&self) -> Map<usize, Ty> {
        type_table_contents(self.map)
    }

    /// The ids whose type counts as inferred.
    pub closed spec fn inferred_ids(&self) -> Set<usize> {
        id_set_contents(self.inferred)
    }

    /// The ids that belong to each version of each file.
    pub closed spec fn ids_per_file(&self) -> Map<(usize, i32), Seq<usize>> {
        id_lists_contents(self.generics_per_file)
    }

    /// The ghost rank of each id.
    pub closed spec fn rank(&self) -> spec_fn(usize) -> nat {
        self.rank@
    }

    /// The next generic id to be handed out.
    pub closed spec fn counter(&self) -> usize {
        self.next_id
    }

    /// A generic id that was not handed out before, counting up from the
    /// last reset and wrapping around at the end of `usize`.
    pub fn new_generic_id(&mut self) -> (r: usize)
        ensures
            r == old(self).counter(),
            final(self).counter() == (if r == usize::MAX {
                0
            } else {
                (r + 1) as usize
            }),
            final(self).types() == old(self).types(),
            final(self).inferred_ids() == old(self).inferred_ids(),
            final(self).ids_per_file() == old(self).ids_per_file(),
            final(self).rank() == old(self).rank(),
    {
        let id = self.next_id;
        self.next_id = if id == usize::MAX {
            0
        } else {
            id + 1
        };
        id
    }

    /// The next generic id to be handed out.
    pub fn peek_generic_id(&self) -> (r: usize)
        ensures
            r == self.counter(),
    {
        self.next_id
    }

    /// Hands out generic ids from zero again.
    pub fn reset_counter(&mut self)
        ensures
            final(self).counter() == 0,
            final(self).types() == old(self).types(),
            final(self).inferred_ids() == old(self).inferred_ids(),
            final(self).ids_per_file() == old(self).ids_per_file(),
            final(self).rank() == old(self).rank(),
    {
        self.next_id = 0;
    }

    /// Continues handing out generic ids from `next`.
    pub fn set_counter(&mut self, next: usize)
        ensures
            final(self).counter() == next,
            final(self).types() == old(self).types(),
            final(self).inferred_ids() == old(self).inferred_ids(),
            final(self).ids_per_file() == old(self).ids_per_file(),
            final(self).rank() == old(self).rank(),
    {
        self.next_id = next;
    }

    /// The links between ids have no cycle: the rank decreases along them.
    pub open spec fn wf(&self) -> bool {
        ranked(self.types(), self.rank())
    }

    /// The type that `id` stands for, `Any` where there is none.
    pub open spec fn type_of_id(&self, id: usize) -> Ty {
        type_of(self.types(), id)
    }

    /// A map with no ids in it.
    pub fn new() -> (r: Self)
        ensures
            r.wf(),
            r.types() == Map::<usize, Ty>::empty(),
            r.inferred_ids() == Set::<usize>::empty(),
            r.ids_per_file() == Map::<(usize, i32), Seq<usize>>::empty(),
            r.rank() == no_rank(),
    {
        GenericsMap {
            map: type_table_new(),
            inferred: id_set_new(),
            generics_per_file: id_lists_new(),
            rank: Ghost(|id: usize| 0nat),
            next_id: 0,
        }
    }

    /// Records that the type of `id` counts as inferred.
    pub fn mark_as_inferred(&mut self, id: usize)
        ensures
            final(self).inferred_ids() == old(self).inferred_ids().insert(id),
            final(self).types() == old(self).types(),
            final(self).ids_per_file() == old(self).ids_per_file(),
            final(self).rank() == old(self).rank(),
    {
        id_set_insert(&mut self.inferred, id);
    }

    /// Whether the type of `id` counts as inferred.
    pub fn is_inferred(&self, id: usize) -> (r: bool)
        ensures
            r == self.inferred_ids().contains(id),
    {
        id_set_contains(&self.inferred, id)
    }

    /// The type that `id` stands for: `Any` where the map has none.
    pub fn get(&self, id: usize) -> (r: DataType)
        ensures
            r@ == self.type_of_id(id),
    {
        match type_table_get(&self.map, id) {
            Some(t) => t,
            None => DataType::Any,
        }
    }

    /// Records the generic ids that belong to a version of a file.
    pub fn insert(&mut self, file_id: usize, file_version: i32, generics: Vec<usize>)
        ensures
            final(self).ids_per_file() == old(self).ids_per_file().insert(
                (file_id, file_version),
                generics@,
            ),
            final(self).types() == old(self).types(),
            final(self).inferred_ids() == old(self).inferred_ids(),
            final(self).rank() == old(self).rank(),
    {
        id_lists_insert(&mut self.generics_per_file, (file_id, file_version), generics);
    }

    /// The generic ids that belong to a version of a file; none where
    /// none were recorded.
    pub fn get_generics(&self, file_id: usize, file_version: i32) -> (r: Vec<usize>)
        ensures
            r@ == (if self.ids_per_file().contains_key((file_id, file_version)) {
                self.ids_per_file()[(file_id, file_version)]
            } else {
                Seq::<usize>::empty()
            }),
    {
        match id_lists_get(&self.generics_per_file, (file_id, file_version)) {
            Some(ids) => ids,
            None => Vec::new(),
        }
    }

    /// Forgets the generic ids that belong to a version of a file: their
    /// types, whether they count as inferred, and the record of them.
    pub fn clean(&mut self, file_id: usize, file_version: i32)
        requires
            old(self).wf(),
        ensures
            final(self).wf(),
            final(self).types() == old(self).types().remove_keys(
                old(self).ids_of_file(file_id, file_version).to_set(),
            ),
            final(self).inferred_ids() == old(self).inferred_ids().difference(
                old(self).ids_of_file(file_id, file_version).to_set(),
            ),
            final(self).ids_per_file() == old(self).ids_per_file().remove((file_id, file_version)),
    {
        let ghost before_types = self.types();
        let ghost before_inferred = self.inferred_ids();
        let ghost ids = self.ids_of_file(file_id, file_version);
        if let Some(generics) = id_lists_get(&self.generics_per_file, (file_id, file_version)) {
            let mut i: usize = 0;
            while i < generics.len()
                invariant
                    i <= generics.len(),
                    generics@ == ids,
                    self.types() == before_types.remove_keys(ids.take(i as int).to_set()),
                    self.inferred_ids() == before_inferred.difference(ids.take(i as int).to_set()),
                    self.rank() == old(self).rank(),
                    self.generics_per_file == old(self).generics_per_file,
                decreases generics.len() - i,
            {
                let id = generics[i];
                type_table_remove(&mut self.map, id);
                id_set_remove(&mut self.inferred, id);
                proof {
                    assert(ids.take(i + 1).to_set() =~= ids.take(i as int).to_set().insert(id)) by {
                        assert(ids.take(i + 1) =~= ids.take(i as int).push(id));
                        ids.take(i as int).lemma_push_to_set_commute(id);
                    }
                    assert(self.types() =~= before_types.remove_keys(ids.take(i + 1).to_set()));
                    assert(self.inferred_ids() =~= before_inferred.difference(
                        ids.take(i + 1).to_set(),
                    ));
                }
                i += 1;
            }
            proof {
                assert(ids.take(generics.len() as int) =~= ids);
            }
        } else {
            proof {
                assert(ids.to_set() =~= Set::<usize>::empty());
                assert(self.types() =~= before_types.remove_keys(ids.to_set()));
                assert(self.inferred_ids() =~= before_inferred.difference(ids.to_set()));
            }
        }
        id_lists_remove(&mut self.generics_per_file, (file_id, file_version));
        proof {
            assert forall|id: usize, g: usize|
                #![trigger self.types()[id], self.rank()(g)]
                self.types().contains_key(id) && mentions(self.types()[id], g) implies self.rank()(g)
                < self.rank()(id) by {
                assert(before_types.contains_key(id) && before_types[id] == self.types()[id]);
            }
        }
    }

    /// The generic ids recorded for a version of a file; none where none
    /// were recorded.
    pub open spec fn ids_of_file(&self, file_id: usize, file_version: i32) -> Seq<usize> {
        if self.ids_per_file().contains_key((file_id, file_version)) {
            self.ids_per_file()[(file_id, file_version)]
        } else {
            Seq::empty()
        }
    }

    /// A second map with the same contents.
    pub fn clone(&self) -> (r: Self)
        ensures
            r.types() == self.types(),
            r.inferred_ids() == self.inferred_ids(),
            r.ids_per_file() == self.ids_per_file(),
            r.rank() == self.rank(),
            r.counter() == self.counter(),
    {
        GenericsMap {
            map: type_table_clone(&self.map),
            inferred: id_set_clone(&self.inferred),
            generics_per_file: id_lists_clone(&self.generics_per_file),
            rank: Ghost(self.rank@),
            next_id: self.next_id,
        }
    }

    /// What `id` resolves to: the type that it stands for, with the
    /// generic ids that it is, or that stand as its array member, failable
    /// member or union members, replaced in turn by what they resolve to.
    pub fn get_recursive(&self, id: usize) -> (r: DataType)
        requires
            self.wf(),
        ensures
            r@ == resolve(self.types(), self.rank(), id),
        decreases self.rank()(id),
    {
        let ghost m = self.types();
        let ghost rk = self.rank();
        let t = self.get(id);
        let ghost tv = t@;
        match t {
            DataType::Generic(j) => {
                proof {
                    assert(tv == Ty::Generic(j));
                    assert(mentions(tv, j));
                    lemma_type_of_ranked(m, rk, id, j);
                    assert(resolve(m, rk, id) == resolve(m, rk, j));
                }
                self.get_recursive(j)
            },
            DataType::Union(types) => {
                let ghost vs = view_types(types@);
                proof {
                    lemma_view_types(types@);
                    lemma_union_members_below(m, rk, id);
                    assert(vs.skip(0) =~= vs);
                }
                let mut out: Vec<DataType> = Vec::new();
                let mut i: usize = 0;
                while i < types.len()
                    invariant
                        self.wf(),
                        m == self.types(),
                        rk == self.rank(),
                        type_of(m, id) == Ty::Union(vs),
                        vs == view_types(types@),
                        vs.len() == types.len(),
                        forall|k: int| 0 <= k < types.len() ==> #[trigger] vs[k] == types@[k]@,
                        seq_below(rk, vs, rk(id) as nat),
                        i <= types.len(),
                        view_types(out@) + resolve_members(m, rk, id, vs.skip(i as int))
                            == resolve_members(m, rk, id, vs),
                    decreases types.len() - i,
                {
                    proof {
                        lemma_seq_skip_unfold(vs, i as int);
                        lemma_seq_below_skip(rk, vs, rk(id) as nat, i as int);
                        lemma_seq_below_skip(rk, vs, rk(id) as nat, i + 1);
                    }
                    let item = match &types[i] {
                        DataType::Generic(j) => {
                            proof {
                                assert(mentions(vs[i as int], *j));
                                lemma_seq_below_member(rk, vs, rk(id) as nat, i as int, *j);
                            }
                            self.get_recursive(*j)
                        },
                        ty => ty.copy(),
                    };
                    proof {
                        crate::types::lemma_view_types_push(out@, item);
                        assert(view_types(out@.push(item)) + resolve_members(m, rk, id, vs.skip(i + 1))
                            =~= view_types(out@) + resolve_members(m, rk, id, vs.skip(i as int)));
                    }
                    out.push(item);
                    i += 1;
                }
                proof {
                    assert(vs.skip(types.len() as int) =~= Seq::<Ty>::empty());
                    assert(view_types(out@) =~= resolve_members(m, rk, id, vs));
                }
                DataType::Union(out)
            },
            DataType::Array(inner) => match *inner {
                DataType::Generic(j) => {
                    proof {
                        assert(view_type(DataType::Generic(j)) == Ty::Generic(j));
                        assert(tv == Ty::Array(Box::new(Ty::Generic(j))));
                        assert(mentions(Ty::Generic(j), j));
                        assert(mentions(type_of(m, id), j));
                        lemma_type_of_ranked(m, rk, id, j);
                    }
                    DataType::Array(Box::new(self.get_recursive(j)))
                },
                ty => {
                    let r = DataType::Array(Box::new(ty));
                    proof {
                        crate::types::lemma_view_form(ty);
                    }
                    assert(r@ == tv);
                    r
                },
            },
            DataType::Failable(inner) => match *inner {
                DataType::Generic(j) => {
                    proof {
                        assert(view_type(DataType::Generic(j)) == Ty::Generic(j));
                        assert(tv == Ty::Failable(Box::new(Ty::Generic(j))));
                        assert(mentions(Ty::Generic(j), j));
                        assert(mentions(type_of(m, id), j));
                        lemma_type_of_ranked(m, rk, id, j);
                    }
                    DataType::Failable(Box::new(self.get_recursive(j)))
                },
                ty => {
                    let r = DataType::Failable(Box::new(ty));
                    proof {
                        crate::types::lemma_view_form(ty);
                    }
                    assert(r@ == tv);
                    r
                },
            },
            ty => ty,
        }
    }

    /// `ty` with the generic ids that count as inferred resolved, taking
    /// unions, arrays and failable types apart member by member.
    #[verifier::spinoff_prover]
    #[verifier::rlimit(40)]
    pub fn deref_type(&self, ty: &DataType) -> (r: DataType)
        requires
            self.wf(),
        ensures
            r@ == deref(self.types(), self.rank(), self.inferred_ids(), ty@),
        decreases ty,
    {
        match ty {
            DataType::Generic(id) => {
                if self.is_inferred(*id) {
                    self.get_recursive(*id)
                } else {
                    ty.copy()
                }
            },
            DataType::Union(types) => {
                let ghost vs = view_types(types@);
                let ghost m = self.types();
                let ghost rk = self.rank();
                let ghost inf = self.inferred_ids();
                proof {
                    lemma_view_types(types@);
                    assert(vs.skip(0) =~= vs);
                }
                let mut out: Vec<DataType> = Vec::new();
                let mut i: usize = 0;
                #[verifier::loop_isolation(false)]
                while i < types.len()
                    invariant
                        i <= types.len(),
                        view_types(out@) + deref_seq(m, rk, inf, vs.skip(i as int)) == deref_seq(
                            m,
                            rk,
                            inf,
                            vs,
                        ),
                    decreases types.len() - i,
                {
                    proof {
                        lemma_seq_skip_unfold(vs, i as int);
                    }
                    let item = self.deref_type(&types[i]);
                    proof {
                        crate::types::lemma_view_types_push(out@, item);
                        assert(view_types(out@.push(item)) + deref_seq(m, rk, inf, vs.skip(i + 1))
                            =~= view_types(out@) + deref_seq(m, rk, inf, vs.skip(i as int)));
                    }
                    out.push(item);
                    i += 1;
                }
                proof {
                    assert(vs.skip(types.len() as int) =~= Seq::<Ty>::empty());
                    assert(view_types(out@) =~= deref_seq(m, rk, inf, vs));
                }
                DataType::Union(out)
            },
            DataType::Array(inner) => DataType::Array(Box::new(self.deref_type(&**inner))),
            DataType::Failable(inner) => DataType::Failable(Box::new(self.deref_type(&**inner))),
            _ => ty.copy(),
        }
    }

    /// Whether a type of `current` may be narrowed to `new`, as
    /// [`more_specific`] says.
    fn is_more_or_equally_specific(&self, current: &DataType, new: &DataType) -> (r: bool)
        requires
            self.wf(),
        ensures
            r == more_specific(self.types(), self.rank(), current@, new@),
        decreases mu(self.rank(), current@) + mu(self.rank(), new@), current, new,
    {
        let ghost m = self.types();
        let ghost rk = self.rank();
        proof {
            crate::types::lemma_view_form(*current);
            crate::types::lemma_view_form(*new);
        }
        match (current, new) {
            (DataType::Generic(id), ty) => {
                let expected = self.get(*id);
                proof {
                    lemma_type_of_mu(m, rk, *id);
                }
                self.is_more_or_equally_specific(&expected, ty)
            },
            (ty, DataType::Generic(id)) => {
                let given = self.get(*id);
                proof {
                    lemma_type_of_mu(m, rk, *id);
                }
                self.is_more_or_equally_specific(ty, &given)
            },
            (DataType::Any, _) => true,
            (_, DataType::Any) => false,
            (DataType::Array(c), DataType::Array(n)) => self.is_more_or_equally_specific(&**c, &**n),
            (_, DataType::Union(new_types)) => {
                let ghost vs = view_types(new_types@);
                proof {
                    lemma_view_types(new_types@);
                    assert(vs.skip(0) =~= vs);
                }
                let mut i: usize = 0;
                #[verifier::loop_isolation(false)]
                while i < new_types.len()
                    invariant
                        i <= new_types.len(),
                        more_specific_all(m, rk, current@, vs) == more_specific_all(
                            m,
                            rk,
                            current@,
                            vs.skip(i as int),
                        ),
                    decreases new_types.len() - i,
                {
                    proof {
                        lemma_seq_skip_unfold(vs, i as int);
                        lemma_mu_seq_member(rk, vs, i as int);
                    }
                    if !self.is_more_or_equally_specific(current, &new_types[i]) {
                        return false;
                    }
                    i += 1;
                }
                proof {
                    assert(vs.skip(new_types.len() as int).len() == 0);
                }
                true
            },
            (DataType::Union(current_types), n) => {
                let ghost vs = view_types(current_types@);
                proof {
                    lemma_view_types(current_types@);
                    assert(vs.skip(0) =~= vs);
                }
                let mut i: usize = 0;
                #[verifier::loop_isolation(false)]
                while i < current_types.len()
                    invariant
                        i <= current_types.len(),
                        more_specific_any(m, rk, vs, new@) == more_specific_any(
                            m,
                            rk,
                            vs.skip(i as int),
                            new@,
                        ),
                    decreases current_types.len() - i,
                {
                    proof {
                        lemma_seq_skip_unfold(vs, i as int);
                        lemma_mu_seq_member(rk, vs, i as int);
                    }
                    if self.is_more_or_equally_specific(&current_types[i], n) {
                        return true;
                    }
                    i += 1;
                }
                false
            },
            (_, DataType::Error) => false,
            (t1, t2) => crate::types::same_type(t1, t2),
        }
    }

    /// Offers `constraint` as the type of `id`: the id at the end of the
    /// chain of generic ids from `id` takes it, unless `constraint` refers
    /// to that id or does not narrow its type.
    ///
    /// The links between ids stay free of cycles where `constraint` does
    /// not lead back to that id through any link; where it does so through
    /// the member of a failable type, which the check on references does
    /// not follow, the map gets a cycle.
    pub fn constrain_generic_type(&mut self, id: usize, constraint: DataType)
        requires
            old(self).wf(),
        ensures
            final(self).types() == constrained(old(self).types(), old(self).rank(), id, constraint@),
            final(self).inferred_ids() == old(self).inferred_ids(),
            final(self).ids_per_file() == old(self).ids_per_file(),
            final(self).types() == old(self).types() ==> final(self).wf(),
            !reaches(
                old(self).types(),
                old(self).rank(),
                constraint@,
                chain_end(old(self).types(), old(self).rank(), id),
            ) ==> final(self).wf(),
        decreases old(self).rank()(id), 1nat,
    {
        if self.has_ref_to_generic(&constraint, id) {
            proof {
                lemma_refers_to_chain_end(self.types(), self.rank(), constraint@, id);
            }
            return;
        }
        self.constrain(id, constraint);
    }

    fn constrain(&mut self, id: usize, constraint: DataType)
        requires
            old(self).wf(),
            !refers_to(old(self).types(), old(self).rank(), constraint@, id),
        ensures
            final(self).types() == constrained(old(self).types(), old(self).rank(), id, constraint@),
            final(self).inferred_ids() == old(self).inferred_ids(),
            final(self).ids_per_file() == old(self).ids_per_file(),
            final(self).types() == old(self).types() ==> final(self).wf(),
            !reaches(
                old(self).types(),
                old(self).rank(),
                constraint@,
                chain_end(old(self).types(), old(self).rank(), id),
            ) ==> final(self).wf(),
        decreases old(self).rank()(id), 0nat,
    {
        let ghost m = self.types();
        let ghost rk = self.rank();
        let ghost c = constraint@;
        let current = self.get(id);
        proof {
            crate::types::lemma_view_form(current);
        }
        match current {
            DataType::Generic(j) => {
                proof {
                    assert(mentions(type_of(m, id), j));
                    lemma_type_of_ranked(m, rk, id, j);
                }
                self.constrain_generic_type(j, constraint);
            },
            ty => {
                if self.is_more_or_equally_specific(&ty, &constraint) {
                    type_table_insert(&mut self.map, id, constraint);
                    proof {
                        if !reaches(m, rk, c, id) {
                            lemma_insert_keeps_ranked(m, rk, id, c);
                        }
                    }
                    self.rank = Ghost(
                        if reaches(m, rk, c, id) {
                            rk
                        } else {
                            rerank(m, rk, id, c)
                        },
                    );
                }
            },
        }
    }

    /// The types of all ids, each written as [`type_string`] says, in the
    /// order of the ids, one per line.
    pub fn to_string(&self) -> (res: String)
        requires
            self.wf(),
        ensures
            exists|ids: Seq<usize>|
                increasing(ids) && ids.to_set() == self.types().dom() && res@ == join(
                    listing(self.types(), self.rank(), ids),
                    "\n"@,
                ),
    {
        let ghost m = self.types();
        let ghost rk = self.rank();
        let entries = type_table_entries(&self.map);
        let mut sorted: Vec<(usize, DataType)> = Vec::new();
        let mut i: usize = 0;
        proof {
            assert(entry_ids(sorted@).to_set() =~= entry_ids(entries@).take(0).to_set());
        }
        while i < entries.len()
            invariant
                i <= entries.len(),
                increasing(entry_ids(sorted@)),
                entry_ids(sorted@).to_set() == entry_ids(entries@).take(i as int).to_set(),
                forall|j: int|
                    0 <= j < sorted@.len() ==> m.contains_key(#[trigger] sorted@[j].0)
                        && sorted@[j].1@ == m[sorted@[j].0],
                forall|j: int|
                    0 <= j < entries@.len() ==> m.contains_key(#[trigger] entries@[j].0)
                        && entries@[j].1@ == m[entries@[j].0],
                forall|a: int, b: int|
                    0 <= a < b < entries@.len() ==> #[trigger] entries@[a].0 != #[trigger] entries@[b].0,
            decreases entries.len() - i,
        {
            let k = entries[i].0;
            let mut pos: usize = 0;
            while pos < sorted.len() && sorted[pos].0 < k
                invariant
                    pos <= sorted.len(),
                    forall|j: int| 0 <= j < pos ==> sorted@[j].0 < k,
                decreases sorted.len() - pos,
            {
                pos += 1;
            }
            let ghost before = sorted@;
            let v = entries[i].1.copy();
            proof {
                assert(!entry_ids(entries@).take(i as int).to_set().contains(k)) by {
                    if entry_ids(entries@).take(i as int).contains(k) {
                        let a = choose|a: int| 0 <= a < i && entry_ids(entries@).take(i as int)[a] == k;
                        assert(entries@[a].0 == entries@[i as int].0);
                    }
                }
                assert(!entry_ids(before).to_set().contains(k));
                assert forall|j: int| pos <= j < before.len() implies k < #[trigger] before[j].0 by {
                    assert(entry_ids(before)[j] == before[j].0);
                    assert(entry_ids(before).contains(before[j].0));
                    if pos < before.len() {
                        assert(!(before[pos as int].0 < k));
                        assert(entry_ids(before)[pos as int] == before[pos as int].0);
                        assert(entry_ids(before).contains(before[pos as int].0));
                        if j > pos {
                            assert(entry_ids(before)[pos as int] < entry_ids(before)[j]);
                        }
                    }
                }
            }
            sorted.insert(pos, (k, v));
            proof {
                let ids = entry_ids(sorted@);
                assert(ids =~= entry_ids(before).insert(pos as int, k));
                assert forall|a: int, b: int| 0 <= a < b < ids.len() implies ids[a] < ids[b] by {
                    if b < pos {
                        assert(ids[a] == entry_ids(before)[a] && ids[b] == entry_ids(before)[b]);
                    } else if b == pos {
                        assert(ids[a] == before[a].0);
                    } else if a < pos {
                        assert(ids[a] == before[a].0 && ids[b] == before[b - 1].0);
                    } else if a == pos {
                        assert(ids[b] == before[b - 1].0);
                    } else {
                        assert(ids[a] == entry_ids(before)[a - 1] && ids[b] == entry_ids(before)[b - 1]);
                    }
                }
                assert(entry_ids(entries@).take(i + 1) =~= entry_ids(entries@).take(i as int).push(k));
                entry_ids(entries@).take(i as int).lemma_push_to_set_commute(k);
                assert(ids.to_set() =~= entry_ids(before).to_set().insert(k)) by {
                    assert forall|x: usize| ids.to_set().contains(x) <==> entry_ids(before).to_set().insert(k).contains(x) by {
                        if ids.contains(x) {
                            let a = choose|a: int| 0 <= a < ids.len() && ids[a] == x;
                            if a < pos {
                                assert(entry_ids(before)[a] == x);
                            } else if a > pos {
                                assert(entry_ids(before)[a - 1] == x);
                            }
                        }
                        if entry_ids(before).contains(x) {
                            let a = choose|a: int| 0 <= a < entry_ids(before).len() && entry_ids(before)[a] == x;
                            if a < pos {
                                assert(ids[a] == x);
                            } else {
                                assert(ids[a + 1] == x);
                            }
                        }
                        if x == k {
                            assert(ids[pos as int] == k);
                        }
                    }
                }
            }
            i += 1;
        }
        proof {
            assert(entry_ids(entries@).take(entries.len() as int) =~= entry_ids(entries@));
            assert(entry_ids(sorted@).to_set() =~= m.dom()) by {
                assert forall|x: usize| entry_ids(sorted@).to_set().contains(x) <==> m.dom().contains(x) by {
                    if m.dom().contains(x) {
                        let a = choose|a: int| 0 <= a < entries@.len() && #[trigger] entries@[a].0 == x;
                        assert(entry_ids(entries@)[a] == x);
                    }
                    if entry_ids(entries@).contains(x) {
                        let a = choose|a: int| 0 <= a < entry_ids(entries@).len() && entry_ids(entries@)[a] == x;
                        assert(entries@[a].0 == x);
                    }
                }
            }
        }
        let ghost ids = entry_ids(sorted@);
        let mut strs: Vec<String> = Vec::new();
        let mut j: usize = 0;
        proof {
            assert(string_views(strs@) =~= listing(m, rk, ids).take(0));
        }
        while j < sorted.len()
            invariant
                j <= sorted.len(),
                self.wf(),
                m == self.types(),
                rk == self.rank(),
                ids == entry_ids(sorted@),
                forall|a: int|
                    0 <= a < sorted@.len() ==> m.contains_key(#[trigger] sorted@[a].0)
                        && sorted@[a].1@ == m[sorted@[a].0],
                string_views(strs@) == listing(m, rk, ids).take(j as int),
            decreases sorted.len() - j,
        {
            let s = sorted[j].1.to_string(self);
            let ghost before = strs@;
            strs.push(s);
            proof {
                assert(string_views(strs@) =~= string_views(before).push(s@));
                assert(listing(m, rk, ids).take(j + 1) =~= listing(m, rk, ids).take(j as int).push(
                    type_string(m, rk, m[ids[j as int]]),
                ));
            }
            j += 1;
        }
        proof {
            assert(listing(m, rk, ids).take(sorted.len() as int) =~= listing(m, rk, ids));
        }
        join_strings(&strs, "\n")
    }

    /// Whether `ty` leads to the generic id `id` through any link, as
    /// [`reaches`] says.
    pub fn reaches_generic(&self, ty: &DataType, id: usize) -> (r: bool)
        requires
            self.wf(),
        ensures
            r == reaches(self.types(), self.rank(), ty@, id),
        decreases mu(self.rank(), ty@), ty,
    {
        match ty {
            DataType::Generic(new_id) => {
                if *new_id == id {
                    return true;
                }
                let t = self.get(*new_id);
                proof {
                    lemma_type_of_mu(self.types(), self.rank(), *new_id);
                }
                self.reaches_generic(&t, id)
            },
            DataType::Union(types) => {
                let ghost vs = view_types(types@);
                proof {
                    lemma_view_types(types@);
                    assert(vs.skip(0) =~= vs);
                }
                let mut i: usize = 0;
                #[verifier::loop_isolation(false)]
                while i < types.len()
                    invariant
                        i <= types.len(),
                        reaches(self.types(), self.rank(), ty@, id) == reaches_seq(
                            self.types(),
                            self.rank(),
                            vs.skip(i as int),
                            id,
                        ),
                    decreases types.len() - i,
                {
                    proof {
                        lemma_mu_seq_member(self.rank(), vs, i as int);
                        assert(vs.skip(i as int)[0] == vs[i as int]);
                        assert(vs.skip(i as int).drop_first() =~= vs.skip(i + 1));
                    }
                    if self.reaches_generic(&types[i], id) {
                        return true;
                    }
                    i += 1;
                }
                false
            },
            DataType::Array(inner) => self.reaches_generic(&**inner, id),
            DataType::Failable(inner) => self.reaches_generic(&**inner, id),
            _ => false,
        }
    }

    /// The id at the end of the chain of ids that stand for generic ids,
    /// starting at `id`.
    pub fn chain_end_of(&self, id: usize) -> (r: usize)
        requires
            self.wf(),
        ensures
            r == chain_end(self.types(), self.rank(), id),
        decreases self.rank()(id),
    {
        let t = self.get(id);
        proof {
            crate::types::lemma_view_form(t);
        }
        match t {
            DataType::Generic(j) => {
                proof {
                    assert(mentions(self.type_of_id(id), j));
                    lemma_type_of_ranked(self.types(), self.rank(), id, j);
                }
                self.chain_end_of(j)
            },
            _ => id,
        }
    }

    /// Narrows the type of `id` as [`GenericsMap::constrain_generic_type`]
    /// does, except where `constraint` leads, through any link, to the id
    /// at the end of the chain from `id`: narrowing there would make the
    /// map cyclic, so that resolving the id would never end, and nothing
    /// changes instead.
    pub fn constrain_acyclic(&mut self, id: usize, constraint: DataType)
        requires
            old(self).wf(),
        ensures
            final(self).wf(),
            final(self).inferred_ids() == old(self).inferred_ids(),
            final(self).ids_per_file() == old(self).ids_per_file(),
            reaches(
                old(self).types(),
                old(self).rank(),
                constraint@,
                chain_end(old(self).types(), old(self).rank(), id),
            ) ==> final(self).types() == old(self).types(),
            !reaches(
                old(self).types(),
                old(self).rank(),
                constraint@,
                chain_end(old(self).types(), old(self).rank(), id),
            ) ==> final(self).types() == constrained(
                old(self).types(),
                old(self).rank(),
                id,
                constraint@,
            ),
    {
        let end = self.chain_end_of(id);
        if self.reaches_generic(&constraint, end) {
            return;
        }
        self.constrain_generic_type(id, constraint);
    }

    /// Whether `ty` leads to the generic id `id`, following generic ids to
    /// the types they stand for, array members and union members.
    pub fn has_ref_to_generic(&self, ty: &DataType, id: usize) -> (r: bool)
        requires
            self.wf(),
        ensures
            r == refers_to(self.types(), self.rank(), ty@, id),
        decreases mu(self.rank(), ty@), ty,
    {
        match ty {
            DataType::Generic(new_id) => {
                if *new_id == id {
                    return true;
                }
                let t = self.get(*new_id);
                proof {
                    lemma_type_of_mu(self.types(), self.rank(), *new_id);
                }
                self.has_ref_to_generic(&t, id)
            },
            DataType::Union(types) => {
                let ghost vs = view_types(types@);
                proof {
                    lemma_view_types(types@);
                    assert(vs.skip(0) =~= vs);
                }
                let mut i: usize = 0;
                #[verifier::loop_isolation(false)]
                while i < types.len()
                    invariant
                        i <= types.len(),
                        refers_to(self.types(), self.rank(), ty@, id) == refers_seq(
                            self.types(),
                            self.rank(),
                            vs.skip(i as int),
                            id,
                        ),
                    decreases types.len() - i,
                {
                    proof {
                        lemma_mu_seq_member(self.rank(), vs, i as int);
                        assert(vs.skip(i as int)[0] == vs[i as int]);
                        assert(vs.skip(i as int).drop_first() =~= vs.skip(i + 1));
                    }
                    if self.has_ref_to_generic(&types[i], id) {
                        return true;
                    }
                    i += 1;
                }
                false
            },
            DataType::Array(inner) => self.has_ref_to_generic(&**inner, id),
            _ => false,
        }
    }
}


/// Whether a value of type `given` is accepted where `expected` is
/// expected, as [`matches`] says.
pub fn matches_type(expected: &DataType, given: &DataType, generics_map: &GenericsMap) -> (r: bool)
    requires
        generics_map.wf(),
    ensures
        r == matches(generics_map.types(), generics_map.rank(), expected@, given@),
    decreases mu(generics_map.rank(), expected@) + mu(generics_map.rank(), given@), expected, given,
{
    let ghost m = generics_map.types();
    let ghost rk = generics_map.rank();
    proof {
        crate::types::lemma_view_form(*expected);
        crate::types::lemma_view_form(*given);
    }
    match (expected, given) {
        (DataType::Generic(id), _) => {
            let expected = generics_map.get_recursive(*id);
            proof {
                lemma_resolve_mu(m, rk, *id);
            }
            matches_type(&expected, given, generics_map)
        },
        (_, DataType::Generic(id)) => {
            let given = generics_map.get_recursive(*id);
            proof {
                lemma_resolve_mu(m, rk, *id);
            }
            matches_type(expected, &given, generics_map)
        },
        (_, DataType::Union(given_types)) => {
            let ghost vs = view_types(given_types@);
            proof {
                lemma_view_types(given_types@);
                assert(vs.skip(0) =~= vs);
            }
            let mut i: usize = 0;
            #[verifier::loop_isolation(false)]
            while i < given_types.len()
                invariant
                    i <= given_types.len(),
                    matches_all(m, rk, expected@, vs) == matches_all(m, rk, expected@, vs.skip(i as int)),
                decreases given_types.len() - i,
            {
                proof {
                    lemma_seq_skip_unfold(vs, i as int);
                    lemma_mu_seq_member(rk, vs, i as int);
                }
                if !matches_type(expected, &given_types[i], generics_map) {
                    return false;
                }
                i += 1;
            }
            proof {
                assert(vs.skip(given_types.len() as int).len() == 0);
            }
            true
        },
        (DataType::Union(expected_types), given_ty) => {
            let ghost vs = view_types(expected_types@);
            proof {
                lemma_view_types(expected_types@);
                assert(vs.skip(0) =~= vs);
            }
            let mut i: usize = 0;
            #[verifier::loop_isolation(false)]
            while i < expected_types.len()
                invariant
                    i <= expected_types.len(),
                    matches_any(m, rk, vs, given@) == matches_any(m, rk, vs.skip(i as int), given@),
                decreases expected_types.len() - i,
            {
                proof {
                    lemma_seq_skip_unfold(vs, i as int);
                    lemma_mu_seq_member(rk, vs, i as int);
                }
                if matches_type(&expected_types[i], given_ty, generics_map) {
                    return true;
                }
                i += 1;
            }
            false
        },
        (DataType::Array(expected_type), DataType::Array(given_type)) => {
            matches_type(&**expected_type, &**given_type, generics_map)
        },
        (DataType::Any, _) => true,
        (_, DataType::Any) => true,
        (DataType::Error, _) => false,
        (_, DataType::Error) => false,
        (expected, DataType::Failable(given)) => matches_type(expected, &**given, generics_map),
        (DataType::Failable(expected), given) => matches_type(&**expected, given, generics_map),
        (t1, t2) => crate::types::same_type(t1, t2),
    }
}


/// Whether one of `ss` equals `s`.
pub(crate) fn contains_string(ss: &Vec<String>, s: &String) -> (r: bool)
    ensures
        r == string_views(ss@).contains(s@),
{
    let mut i: usize = 0;
    while i < ss.len()
        invariant
            i <= ss.len(),
            forall|j: int| 0 <= j < i ==> ss@[j]@ != s@,
        decreases ss.len() - i,
    {
        if ss[i] == *s {
            assert(string_views(ss@)[i as int] == s@);
            return true;
        }
        i += 1;
    }
    proof {
        if string_views(ss@).contains(s@) {
            let j = choose|j: int| 0 <= j < string_views(ss@).len() && string_views(ss@)[j] == s@;
            assert(ss@[j]@ == s@);
        }
    }
    false
}

/// `ss` left as they are where no string repeats; each string that
/// repeats kept where it occurs first only.
fn dedup_strings(ss: &Vec<String>) -> (r: Vec<String>)
    ensures
        string_views(r@) == crate::types::dedup(string_views(ss@)),
{
    let mut out: Vec<String> = Vec::new();
    let mut i: usize = 0;
    proof {
        assert(string_views(ss@).take(0) =~= Seq::<Seq<char>>::empty());
        assert(string_views(out@) =~= Seq::<Seq<char>>::empty());
    }
    while i < ss.len()
        invariant
            i <= ss.len(),
            string_views(out@) == crate::types::dedup(string_views(ss@).take(i as int)),
        decreases ss.len() - i,
    {
        let ghost vs = string_views(ss@);
        proof {
            assert(vs.take(i + 1).drop_last() =~= vs.take(i as int));
            assert(vs.take(i + 1).last() == ss@[i as int]@);
        }
        if !contains_string(&out, &ss[i]) {
            let c = ss[i].clone();
            let ghost before = out@;
            out.push(c);
            proof {
                assert(string_views(out@) =~= string_views(before).push(c@));
            }
        }
        i += 1;
    }
    proof {
        assert(string_views(ss@).take(ss.len() as int) =~= string_views(ss@));
    }
    out
}

/// The strings of `ss` with `sep` between each two of them.
pub fn join_strings(ss: &Vec<String>, sep: &str) -> (r: String)
    ensures
        r@ == join(string_views(ss@), sep@),
{
    let mut out = String::new();
    let mut i: usize = 0;
    proof {
        assert(string_views(ss@).take(0) =~= Seq::<Seq<char>>::empty());
    }
    while i < ss.len()
        invariant
            i <= ss.len(),
            out@ == join(string_views(ss@).take(i as int), sep@),
        decreases ss.len() - i,
    {
        let ghost vs = string_views(ss@);
        proof {
            assert(vs.take(i + 1).drop_last() =~= vs.take(i as int));
            assert(vs.take(i + 1).last() == ss@[i as int]@);
        }
        if i > 0 {
            out.append(sep);
        } else {
            assert(vs.take(1) =~= seq![ss@[0]@]);
            assert(out@ =~= Seq::<char>::empty());
        }
        out.append(ss[i].as_str());
        proof {
            if i == 0 {
                assert(out@ =~= ss@[0]@);
            }
        }
        i += 1;
    }
    proof {
        assert(string_views(ss@).take(ss.len() as int) =~= string_views(ss@));
    }
    out
}

impl DataType {
    /// How the type is written, as [`type_string`] says.
    pub fn to_string(&self, generics_map: &GenericsMap) -> (r: String)
        requires
            generics_map.wf(),
        ensures
            r@ == type_string(generics_map.types(), generics_map.rank(), self@),
        decreases mu(generics_map.rank(), self@), self,
    {
        let ghost m = generics_map.types();
        let ghost rk = generics_map.rank();
        match self {
            DataType::Any => String::from_str("Any"),
            DataType::Number => String::from_str("Num"),
            DataType::Boolean => String::from_str("Bool"),
            DataType::Text => String::from_str("Text"),
            DataType::Null => String::from_str("Null"),
            DataType::Array(t) => {
                let mut out = String::from_str("[");
                let inner = t.to_string(generics_map);
                out.append(inner.as_str());
                out.append("]");
                out
            },
            DataType::Union(types) => {
                let ghost vs = view_types(types@);
                proof {
                    lemma_view_types(types@);
                    lemma_type_strings(m, rk, vs);
                }
                let mut strs: Vec<String> = Vec::new();
                proof {
                    assert(string_views(strs@) =~= type_strings(m, rk, vs).take(0));
                }
                let mut i: usize = 0;
                #[verifier::loop_isolation(false)]
                while i < types.len()
                    invariant
                        i <= types.len(),
                        string_views(strs@) == type_strings(m, rk, vs).take(i as int),
                    decreases types.len() - i,
                {
                    proof {
                        lemma_mu_seq_member(rk, vs, i as int);
                    }
                    let s = types[i].to_string(generics_map);
                    let ghost before = strs@;
                    strs.push(s);
                    proof {
                        assert(string_views(strs@) =~= string_views(before).push(s@));
                        assert(type_strings(m, rk, vs).take(i + 1) =~= type_strings(m, rk, vs).take(
                            i as int,
                        ).push(type_string(m, rk, vs[i as int])));
                    }
                    i += 1;
                }
                proof {
                    assert(type_strings(m, rk, vs).take(types.len() as int) =~= type_strings(m, rk, vs));
                }
                let distinct = dedup_strings(&strs);
                join_strings(&distinct, " | ")
            },
            DataType::Generic(id) => {
                let t = generics_map.get(*id);
                proof {
                    lemma_type_of_mu(m, rk, *id);
                }
                t.to_string(generics_map)
            },
            DataType::Failable(t) => {
                let inner = t.to_string(generics_map);
                proof {
                    crate::types::lemma_view_form(**t);
                }
                match &**t {
                    DataType::Union(_) => {
                        let mut out = String::from_str("(");
                        out.append(inner.as_str());
                        out.append(")?");
                        out
                    },
                    _ => {
                        let mut out = inner;
                        out.append("?");
                        out
                    },
                }
            },
            DataType::Error => String::from_str("<Invalid type>"),
        }
    }
}

/// The rank of a map with no ids in it.
pub open spec fn no_rank() -> spec_fn(usize) -> nat {
    |id: usize| 0nat
}

/// `Any` accepts every type.
pub proof fn law_any_accepts_every_type(m: Map<usize, Ty>, r: spec_fn(usize) -> nat, t: Ty)
    requires
        ranked(m, r),
    ensures
        matches(m, r, Ty::Any, t),
    decreases mu(r, t), t,
{
    match t {
        Ty::Generic(id) => {
            lemma_resolve_mu(m, r, id);
            law_any_accepts_every_type(m, r, resolve(m, r, id));
        },
        Ty::Union(gs) => {
            assert(decreases_to!(t => gs));
            lemma_any_accepts_all(m, r, gs);
        },
        _ => {},
    }
}

/// `Any` accepts each of a list of types.
proof fn lemma_any_accepts_all(m: Map<usize, Ty>, r: spec_fn(usize) -> nat, gs: Seq<Ty>)
    requires
        ranked(m, r),
    ensures
        matches_all(m, r, Ty::Any, gs),
    decreases mu_seq(r, gs), gs,
{
    if gs.len() > 0 {
        lemma_mu_seq_rest(r, gs);
        assert(decreases_to!(gs => gs[0]));
        law_any_accepts_every_type(m, r, gs[0]);
        lemma_any_accepts_all(m, r, gs.drop_first());
    }
}

/// A constraint that refers to the id that it narrows, through any link
/// that the check on references follows, leaves the generic types as they
/// were.
pub proof fn law_self_referring_constraint_changes_nothing(
    m: Map<usize, Ty>,
    r: spec_fn(usize) -> nat,
    id: usize,
    constraint: Ty,
)
    requires
        ranked(m, r),
        refers_to(m, r, constraint, id),
    ensures
        constrained(m, r, id, constraint) == m,
{
    lemma_refers_to_chain_end(m, r, constraint, id);
}

/// Whether no error can be met in `t` at any depth, each generic id
/// followed to the type that it resolves to.
pub open spec fn error_free(m: Map<usize, Ty>, r: spec_fn(usize) -> nat, t: Ty) -> bool
    decreases mu(r, t), t,
    when ranked(m, r)
    via error_free_decreases
{
    match t {
        Ty::Generic(id) => error_free(m, r, resolve(m, r, id)),
        Ty::Error => false,
        Ty::Array(x) => error_free(m, r, *x),
        Ty::Failable(x) => error_free(m, r, *x),
        Ty::Union(ts) => error_free_seq(m, r, ts),
        _ => true,
    }
}

/// Whether no error can be met in any of `ts`, as [`error_free`] says.
pub open spec fn error_free_seq(m: Map<usize, Ty>, r: spec_fn(usize) -> nat, ts: Seq<Ty>) -> bool
    decreases mu_seq(r, ts), ts,
    when ranked(m, r)
    via error_free_seq_decreases
{
    ts.len() == 0 || (error_free(m, r, ts[0]) && error_free_seq(m, r, ts.drop_first()))
}

#[via_fn]
proof fn error_free_decreases(m: Map<usize, Ty>, r: spec_fn(usize) -> nat, t: Ty) {
    if let Ty::Generic(id) = t {
        lemma_resolve_mu(m, r, id);
    }
}

#[via_fn]
proof fn error_free_seq_decreases(m: Map<usize, Ty>, r: spec_fn(usize) -> nat, ts: Seq<Ty>) {
    if ts.len() > 0 {
        lemma_mu_seq_rest(r, ts);
    }
}

proof fn lemma_error_free_seq(m: Map<usize, Ty>, r: spec_fn(usize) -> nat, ts: Seq<Ty>)
    requires
        ranked(m, r),
    ensures
        error_free_seq(m, r, ts) <==> forall|i: int|
            0 <= i < ts.len() ==> #[trigger] error_free(m, r, ts[i]),
    decreases ts.len(),
{
    if ts.len() > 0 {
        let rest = ts.drop_first();
        lemma_error_free_seq(m, r, rest);
        if error_free_seq(m, r, ts) {
            assert forall|i: int| 0 <= i < ts.len() implies #[trigger] error_free(m, r, ts[i]) by {
                if i > 0 {
                    assert(ts[i] == rest[i - 1]);
                }
            }
        }
        if forall|i: int| 0 <= i < ts.len() ==> #[trigger] error_free(m, r, ts[i]) {
            assert(error_free(m, r, ts[0]));
            assert forall|i: int| 0 <= i < rest.len() implies #[trigger] error_free(m, r, rest[i]) by {
                assert(rest[i] == ts[i + 1]);
            }
        }
    }
}

/// `expected` accepts each of `gs` exactly when [`matches_all`] says so.
proof fn lemma_matches_all(m: Map<usize, Ty>, r: spec_fn(usize) -> nat, expected: Ty, gs: Seq<Ty>)
    requires
        ranked(m, r),
    ensures
        matches_all(m, r, expected, gs) <==> forall|i: int|
            0 <= i < gs.len() ==> #[trigger] matches(m, r, expected, gs[i]),
    decreases gs.len(),
{
    if gs.len() > 0 {
        let rest = gs.drop_first();
        lemma_matches_all(m, r, expected, rest);
        if matches_all(m, r, expected, gs) {
            assert forall|i: int| 0 <= i < gs.len() implies #[trigger] matches(m, r, expected, gs[i]) by {
                if i > 0 {
                    assert(gs[i] == rest[i - 1]);
                }
            }
        }
        if forall|i: int| 0 <= i < gs.len() ==> #[trigger] matches(m, r, expected, gs[i]) {
            assert(matches(m, r, expected, gs[0]));
            assert forall|i: int| 0 <= i < rest.len() implies #[trigger] matches(m, r, expected, rest[i]) by {
                assert(rest[i] == gs[i + 1]);
            }
        }
    }
}

/// One of `es` accepts `given` exactly when [`matches_any`] says so.
proof fn lemma_matches_any(m: Map<usize, Ty>, r: spec_fn(usize) -> nat, es: Seq<Ty>, given: Ty)
    requires
        ranked(m, r),
    ensures
        matches_any(m, r, es, given) <==> exists|i: int|
            0 <= i < es.len() && #[trigger] matches(m, r, es[i], given),
    decreases es.len(),
{
    if es.len() > 0 {
        let rest = es.drop_first();
        lemma_matches_any(m, r, rest, given);
        if matches(m, r, es[0], given) {
            assert(0 <= 0 < es.len() && matches(m, r, es[0], given));
        }
        if matches_any(m, r, rest, given) {
            let i = choose|i: int| 0 <= i < rest.len() && #[trigger] matches(m, r, rest[i], given);
            assert(rest[i] == es[i + 1]);
            assert(matches(m, r, es[i + 1], given));
        }
        if exists|i: int| 0 <= i < es.len() && #[trigger] matches(m, r, es[i], given) {
            let i = choose|i: int| 0 <= i < es.len() && #[trigger] matches(m, r, es[i], given);
            if i > 0 {
                assert(rest[i - 1] == es[i]);
                assert(matches(m, r, rest[i - 1], given));
            }
        }
    }
}

/// A given generic id is accepted as what it resolves to.
proof fn lemma_matches_given_generic(m: Map<usize, Ty>, r: spec_fn(usize) -> nat, e: Ty, id: usize)
    requires
        ranked(m, r),
    ensures
        matches(m, r, e, Ty::Generic(id)) == matches(m, r, e, resolve(m, r, id)),
{
    law_resolve_is_not_generic(m, r, id);
    if let Ty::Generic(j) = e {
        law_resolve_is_not_generic(m, r, j);
        assert(matches(m, r, e, Ty::Generic(id)) == matches(m, r, resolve(m, r, j), Ty::Generic(id)));
        assert(matches(m, r, resolve(m, r, j), Ty::Generic(id)) == matches(
            m,
            r,
            resolve(m, r, j),
            resolve(m, r, id),
        ));
    }
}

/// A union is accepted exactly where each of its members is.
proof fn lemma_matches_union(m: Map<usize, Ty>, r: spec_fn(usize) -> nat, e: Ty, xs: Seq<Ty>)
    requires
        ranked(m, r),
    ensures
        matches(m, r, e, Ty::Union(xs)) <==> forall|k: int|
            0 <= k < xs.len() ==> #[trigger] matches(m, r, e, xs[k]),
{
    if let Ty::Generic(j) = e {
        let re = resolve(m, r, j);
        law_resolve_is_not_generic(m, r, j);
        lemma_matches_all(m, r, re, xs);
        assert(matches(m, r, e, Ty::Union(xs)) == matches(m, r, re, Ty::Union(xs)));
        assert(matches(m, r, re, Ty::Union(xs)) == matches_all(m, r, re, xs));
        assert forall|k: int| #![trigger xs[k]]
            0 <= k < xs.len() implies matches(m, r, e, xs[k]) == matches(m, r, re, xs[k]) by {}
    } else {
        lemma_matches_all(m, r, e, xs);
        assert(matches(m, r, e, Ty::Union(xs)) == matches_all(m, r, e, xs));
    }
}

/// A union accepts what one of its members accepts.
proof fn lemma_member_accepts(m: Map<usize, Ty>, r: spec_fn(usize) -> nat, es: Seq<Ty>, i: int, x: Ty)
    requires
        ranked(m, r),
        0 <= i < es.len(),
        matches(m, r, es[i], x),
    ensures
        matches(m, r, Ty::Union(es), x),
    decreases mu(r, x), x,
{
    match x {
        Ty::Generic(id) => {
            lemma_matches_given_generic(m, r, es[i], id);
            lemma_matches_given_generic(m, r, Ty::Union(es), id);
            lemma_resolve_mu(m, r, id);
            lemma_member_accepts(m, r, es, i, resolve(m, r, id));
        },
        Ty::Union(xs) => {
            lemma_matches_union(m, r, es[i], xs);
            assert forall|k: int| 0 <= k < xs.len() implies #[trigger] matches(
                m,
                r,
                Ty::Union(es),
                xs[k],
            ) by {
                lemma_mu_seq_member(r, xs, k);
                assert(matches(m, r, es[i], xs[k]));
                lemma_member_accepts(m, r, es, i, xs[k]);
            }
            lemma_matches_union(m, r, Ty::Union(es), xs);
        },
        _ => {
            lemma_matches_any(m, r, es, x);
        },
    }
}

/// Where `e` accepts a failable `x`, it accepts `x`.
proof fn lemma_drop_failable(m: Map<usize, Ty>, r: spec_fn(usize) -> nat, e: Ty, x: Ty)
    requires
        ranked(m, r),
        matches(m, r, e, Ty::Failable(Box::new(x))),
    ensures
        matches(m, r, e, x),
    decreases mu(r, e), e,
{
    match e {
        Ty::Union(es) => {
            lemma_matches_any(m, r, es, Ty::Failable(Box::new(x)));
            let i = choose|i: int|
                0 <= i < es.len() && #[trigger] matches(m, r, es[i], Ty::Failable(Box::new(x)));
            lemma_mu_seq_member(r, es, i);
            lemma_drop_failable(m, r, es[i], x);
            lemma_member_accepts(m, r, es, i, x);
        },
        Ty::Generic(j) => {
            lemma_resolve_mu(m, r, j);
            lemma_drop_failable(m, r, resolve(m, r, j), x);
        },
        Ty::Any => {
            law_any_accepts_every_type(m, r, x);
        },
        _ => {},
    }
}

/// What `e` accepts, a failable `e` accepts too, where no error can be met
/// in it.
proof fn lemma_failable_accepts(m: Map<usize, Ty>, r: spec_fn(usize) -> nat, e: Ty, x: Ty)
    requires
        ranked(m, r),
        error_free(m, r, x),
        matches(m, r, e, x),
    ensures
        matches(m, r, Ty::Failable(Box::new(e)), x),
    decreases mu(r, x), x,
{
    match x {
        Ty::Generic(id) => {
            lemma_matches_given_generic(m, r, e, id);
            lemma_matches_given_generic(m, r, Ty::Failable(Box::new(e)), id);
            lemma_resolve_mu(m, r, id);
            lemma_failable_accepts(m, r, e, resolve(m, r, id));
        },
        Ty::Union(xs) => {
            lemma_error_free_seq(m, r, xs);
            lemma_matches_union(m, r, e, xs);
            assert forall|k: int| 0 <= k < xs.len() implies #[trigger] matches(
                m,
                r,
                Ty::Failable(Box::new(e)),
                xs[k],
            ) by {
                lemma_mu_seq_member(r, xs, k);
                assert(error_free(m, r, xs[k]));
                assert(matches(m, r, e, xs[k]));
                lemma_failable_accepts(m, r, e, xs[k]);
            }
            lemma_matches_union(m, r, Ty::Failable(Box::new(e)), xs);
        },
        Ty::Failable(y) => {
            lemma_drop_failable(m, r, e, *y);
            lemma_failable_accepts(m, r, e, *y);
        },
        _ => {},
    }
}

/// A type in which no error can be met, at any depth and through any
/// generic id, matches itself: a value of the type is accepted where the
/// type is expected.
pub proof fn law_type_matches_itself(m: Map<usize, Ty>, r: spec_fn(usize) -> nat, t: Ty)
    requires
        ranked(m, r),
        error_free(m, r, t),
    ensures
        matches(m, r, t, t),
    decreases mu(r, t), t,
{
    match t {
        Ty::Generic(id) => {
            let rt = resolve(m, r, id);
            lemma_resolve_mu(m, r, id);
            law_resolve_is_not_generic(m, r, id);
            law_type_matches_itself(m, r, rt);
            lemma_matches_given_generic(m, r, rt, id);
            assert(matches(m, r, t, t) == matches(m, r, rt, t));
        },
        Ty::Union(ts) => {
            lemma_error_free_seq(m, r, ts);
            assert forall|j: int| 0 <= j < ts.len() implies #[trigger] matches(m, r, t, ts[j]) by {
                lemma_mu_seq_member(r, ts, j);
                assert(error_free(m, r, ts[j]));
                law_type_matches_itself(m, r, ts[j]);
                lemma_member_accepts(m, r, ts, j, ts[j]);
            }
            lemma_matches_union(m, r, t, ts);
        },
        Ty::Array(x) => {
            law_type_matches_itself(m, r, *x);
        },
        Ty::Failable(x) => {
            law_type_matches_itself(m, r, *x);
            lemma_failable_accepts(m, r, *x, *x);
        },
        _ => {},
    }
}

/// Narrowing a generic id keeps the links between ids free of cycles:
/// where the constraint refers to the id through the links that the check
/// on references follows, nothing changes, and where it does not lead back
/// to the end of the chain from the id through any link, the member of a
/// failable type included, the narrowed map is ordered by some rank.
pub proof fn law_constraint_keeps_acyclic(m: Map<usize, Ty>, r: spec_fn(usize) -> nat, id: usize, c: Ty)
    requires
        ranked(m, r),
        refers_to(m, r, c, id) || !reaches(m, r, c, chain_end(m, r, id)),
    ensures
        exists|r2: spec_fn(usize) -> nat| ranked(constrained(m, r, id, c), r2),
{
    let e = chain_end(m, r, id);
    if refers_to(m, r, c, id) {
        law_self_referring_constraint_changes_nothing(m, r, id, c);
        assert(ranked(constrained(m, r, id, c), r));
    } else if constrained(m, r, id, c) == m {
        assert(ranked(constrained(m, r, id, c), r));
    } else {
        lemma_insert_keeps_ranked(m, r, e, c);
        assert(ranked(constrained(m, r, id, c), rerank(m, r, e, c)));
    }
}

/// Whether `t` holds no generic id at any depth.
pub open spec fn no_generic(t: Ty) -> bool
    decreases t,
{
    match t {
        Ty::Generic(_) => false,
        Ty::Array(x) => no_generic(*x),
        Ty::Failable(x) => no_generic(*x),
        Ty::Union(ts) => no_generic_seq(ts),
        _ => true,
    }
}

/// Whether none of `ts` holds a generic id at any depth.
pub open spec fn no_generic_seq(ts: Seq<Ty>) -> bool
    decreases ts,
{
    ts.len() == 0 || (no_generic(ts[0]) && no_generic_seq(ts.drop_first()))
}

/// Whether no failable type in `t` holds a generic id: the links that
/// the check on references does not follow lead to no id.
pub open spec fn failables_plain(t: Ty) -> bool
    decreases t,
{
    match t {
        Ty::Failable(x) => no_generic(*x),
        Ty::Array(x) => failables_plain(*x),
        Ty::Union(ts) => failables_plain_seq(ts),
        _ => true,
    }
}

/// Whether no failable type in any of `ts` holds a generic id.
pub open spec fn failables_plain_seq(ts: Seq<Ty>) -> bool
    decreases ts,
{
    ts.len() == 0 || (failables_plain(ts[0]) && failables_plain_seq(ts.drop_first()))
}

/// Whether no failable type in any type that the map holds holds a
/// generic id.
pub open spec fn stored_failables_plain(m: Map<usize, Ty>) -> bool {
    forall|i: usize| m.contains_key(i) ==> failables_plain(#[trigger] m[i])
}

/// A type with no generic id leads to no id.
proof fn lemma_no_generic_reaches_nothing(m: Map<usize, Ty>, r: spec_fn(usize) -> nat, t: Ty, g: usize)
    requires
        ranked(m, r),
        no_generic(t),
    ensures
        !reaches(m, r, t, g),
    decreases t,
{
    match t {
        Ty::Array(x) => lemma_no_generic_reaches_nothing(m, r, *x, g),
        Ty::Failable(x) => lemma_no_generic_reaches_nothing(m, r, *x, g),
        Ty::Union(ts) => lemma_no_generic_seq_reaches_nothing(m, r, ts, g),
        _ => {},
    }
}

proof fn lemma_no_generic_seq_reaches_nothing(m: Map<usize, Ty>, r: spec_fn(usize) -> nat, ts: Seq<Ty>, g: usize)
    requires
        ranked(m, r),
        no_generic_seq(ts),
    ensures
        !reaches_seq(m, r, ts, g),
    decreases ts,
{
    if ts.len() > 0 {
        lemma_no_generic_reaches_nothing(m, r, ts[0], g);
        lemma_no_generic_seq_reaches_nothing(m, r, ts.drop_first(), g);
    }
}

/// Where no failable type holds a generic id, in `t` or in what the map
/// holds, leading to `g` through any link is referring to it through the
/// links that the check on references follows.
proof fn lemma_reaches_refers(m: Map<usize, Ty>, r: spec_fn(usize) -> nat, t: Ty, g: usize)
    requires
        ranked(m, r),
        stored_failables_plain(m),
        failables_plain(t),
        reaches(m, r, t, g),
    ensures
        refers_to(m, r, t, g),
    decreases mu(r, t), t,
{
    match t {
        Ty::Generic(i) => {
            if i != g {
                lemma_type_of_mu(m, r, i);
                if m.contains_key(i) {
                    assert(failables_plain(m[i]));
                }
                lemma_reaches_refers(m, r, type_of(m, i), g);
            }
        },
        Ty::Array(x) => lemma_reaches_refers(m, r, *x, g),
        Ty::Failable(x) => lemma_no_generic_reaches_nothing(m, r, *x, g),
        Ty::Union(ts) => {
            assert(decreases_to!(t => t->Union_0));
            lemma_reaches_refers_seq(m, r, ts, g);
        },
        _ => {},
    }
}

proof fn lemma_reaches_refers_seq(m: Map<usize, Ty>, r: spec_fn(usize) -> nat, ts: Seq<Ty>, g: usize)
    requires
        ranked(m, r),
        stored_failables_plain(m),
        failables_plain_seq(ts),
        reaches_seq(m, r, ts, g),
    ensures
        refers_seq(m, r, ts, g),
    decreases mu_seq(r, ts), ts,
{
    lemma_mu_seq_rest(r, ts);
    if reaches(m, r, ts[0], g) {
        lemma_reaches_refers(m, r, ts[0], g);
    } else {
        lemma_reaches_refers_seq(m, r, ts.drop_first(), g);
    }
}

/// Where no failable type holds a generic id, in the constraint or in
/// what the map holds, narrowing a generic id keeps the links between ids
/// free of cycles in every case: a constraint that leads back to the end
/// of the chain from the id changes nothing, any other is ordered by some
/// rank; and no failable type holds a generic id afterwards either.
pub proof fn law_constraint_without_failable_generics_keeps_acyclic(
    m: Map<usize, Ty>,
    r: spec_fn(usize) -> nat,
    id: usize,
    c: Ty,
)
    requires
        ranked(m, r),
        stored_failables_plain(m),
        failables_plain(c),
    ensures
        reaches(m, r, c, chain_end(m, r, id)) ==> constrained(m, r, id, c) == m,
        exists|r2: spec_fn(usize) -> nat| ranked(constrained(m, r, id, c), r2),
        stored_failables_plain(constrained(m, r, id, c)),
{
    let e = chain_end(m, r, id);
    if reaches(m, r, c, e) {
        lemma_reaches_refers(m, r, c, e);
        assert(constrained(m, r, id, c) == m);
        assert(ranked(constrained(m, r, id, c), r));
    } else {
        law_constraint_keeps_acyclic(m, r, id, c);
    }
    let m2 = constrained(m, r, id, c);
    assert forall|i: usize| m2.contains_key(i) implies failables_plain(#[trigger] m2[i]) by {
        if m2 != m && i != e {
            assert(m2[i] == m[i]);
        }
    }
}

/// An array is accepted where an array is expected exactly when its
/// member type is accepted where the expected member type is: `[Text]` is
/// not accepted where `[Num]` is expected, as `Text` is not where `Num` is.
pub proof fn law_arrays_match_by_members(m: Map<usize, Ty>, r: spec_fn(usize) -> nat, e: Ty, g: Ty)
    requires
        ranked(m, r),
    ensures
        matches(m, r, Ty::Array(Box::new(e)), Ty::Array(Box::new(g))) == matches(m, r, e, g),
{
}

/// A union is accepted exactly where each of its members is.
pub proof fn law_union_given_matches_each_member(m: Map<usize, Ty>, r: spec_fn(usize) -> nat, e: Ty, gs: Seq<Ty>)
    requires
        ranked(m, r),
    ensures
        matches(m, r, e, Ty::Union(gs)) <==> forall|k: int| 0 <= k < gs.len() ==> #[trigger] matches(m, r, e, gs[k]),
{
    lemma_matches_union(m, r, e, gs);
}

/// Where a union is expected, a type that is no union and no generic id
/// is accepted exactly when one of the union's members accepts it.
pub proof fn law_union_expected_matches_some_member(m: Map<usize, Ty>, r: spec_fn(usize) -> nat, es: Seq<Ty>, g: Ty)
    requires
        ranked(m, r),
        !(g is Union),
        !(g is Generic),
    ensures
        matches(m, r, Ty::Union(es), g) <==> exists|i: int| 0 <= i < es.len() && #[trigger] matches(m, r, es[i], g),
{
    lemma_matches_any(m, r, es, g);
}

/// A generic id, given or expected, is matched as the type it resolves
/// to.
pub proof fn law_generic_matches_as_resolved(m: Map<usize, Ty>, r: spec_fn(usize) -> nat, t: Ty, id: usize)
    requires
        ranked(m, r),
    ensures
        matches(m, r, t, Ty::Generic(id)) == matches(m, r, t, resolve(m, r, id)),
        matches(m, r, Ty::Generic(id), t) == matches(m, r, resolve(m, r, id), t),
{
    lemma_matches_given_generic(m, r, t, id);
}

/// Where a failable type is given, whatever accepts it accepts its
/// member; and what a type accepts, the failable type accepts, where no
/// error can be met in it.
pub proof fn law_failable_matches_as_its_member(m: Map<usize, Ty>, r: spec_fn(usize) -> nat, e: Ty, x: Ty)
    requires
        ranked(m, r),
    ensures
        matches(m, r, e, Ty::Failable(Box::new(x))) ==> matches(m, r, e, x),
        error_free(m, r, x) && matches(m, r, e, x) ==> matches(m, r, Ty::Failable(Box::new(e)), x),
{
    if matches(m, r, e, Ty::Failable(Box::new(x))) {
        lemma_drop_failable(m, r, e, x);
    }
    if error_free(m, r, x) && matches(m, r, e, x) {
        lemma_failable_accepts(m, r, e, x);
    }
}

/// A generic id that nothing has narrowed yet, of type `Any`, takes any
/// constraint that holds no generic id.
pub proof fn law_any_is_narrowed_by_a_closed_constraint(m: Map<usize, Ty>, r: spec_fn(usize) -> nat, id: usize, c: Ty)
    requires
        ranked(m, r),
        type_of(m, chain_end(m, r, id)) == Ty::Any,
        no_generic(c),
    ensures
        constrained(m, r, id, c) == m.insert(chain_end(m, r, id), c),
        type_of(constrained(m, r, id, c), chain_end(m, r, id)) == c,
{
    let e = chain_end(m, r, id);
    lemma_no_generic_refers_nothing(m, r, c, e);
}

/// A type with no generic id refers to no id.
proof fn lemma_no_generic_refers_nothing(m: Map<usize, Ty>, r: spec_fn(usize) -> nat, t: Ty, g: usize)
    requires
        ranked(m, r),
        no_generic(t),
    ensures
        !refers_to(m, r, t, g),
    decreases t,
{
    match t {
        Ty::Array(x) => lemma_no_generic_refers_nothing(m, r, *x, g),
        Ty::Union(ts) => lemma_no_generic_seq_refers_nothing(m, r, ts, g),
        _ => {},
    }
}

proof fn lemma_no_generic_seq_refers_nothing(m: Map<usize, Ty>, r: spec_fn(usize) -> nat, ts: Seq<Ty>, g: usize)
    requires
        ranked(m, r),
        no_generic_seq(ts),
    ensures
        !refers_seq(m, r, ts, g),
    decreases ts,
{
    if ts.len() > 0 {
        lemma_no_generic_refers_nothing(m, r, ts[0], g);
        lemma_no_generic_seq_refers_nothing(m, r, ts.drop_first(), g);
    }
}

/// Whether a type is one of the plain types that carry no other type: a
/// number, a text, a boolean or `null`.
pub open spec fn plain_scalar(t: Ty) -> bool {
    t is Number || t is Text || t is Boolean || t is Null
}

/// Two plain types that differ are no match for each other in either
/// direction.
pub proof fn law_distinct_plain_types_do_not_match(m: Map<usize, Ty>, r: spec_fn(usize) -> nat, a: Ty, b: Ty)
    requires
        ranked(m, r),
        plain_scalar(a),
        plain_scalar(b),
        a != b,
    ensures
        !matches(m, r, a, b),
        !matches(m, r, b, a),
{
}

/// A generic id already inferred to be a plain type keeps that type when
/// it is offered a plain type: the same one changes nothing, and a
/// different one, which is no narrowing of it, is refused.
pub proof fn law_inferred_plain_type_is_kept(m: Map<usize, Ty>, r: spec_fn(usize) -> nat, id: usize, b: Ty)
    requires
        ranked(m, r),
        plain_scalar(type_of(m, chain_end(m, r, id))),
        plain_scalar(b),
    ensures
        constrained(m, r, id, b) == m,
        type_of(constrained(m, r, id, b), chain_end(m, r, id)) == type_of(m, chain_end(m, r, id)),
{
    let e = chain_end(m, r, id);
    let a = type_of(m, e);
    assert(m.contains_key(e));
    assert(!refers_to(m, r, b, e));
    if a == b {
        assert(m.insert(e, b) =~= m);
    } else {
        assert(!more_specific(m, r, a, b));
    }
}

/// Resolving a generic id never gives a generic id: the chain of ids that
/// stand for other ids ends at a type that is no id.
pub proof fn law_resolve_is_not_generic(m: Map<usize, Ty>, r: spec_fn(usize) -> nat, id: usize)
    requires
        ranked(m, r),
    ensures
        !(resolve(m, r, id) is Generic),
    decreases r(id),
{
    if let Ty::Generic(j) = type_of(m, id) {
        assert(mentions(type_of(m, id), j));
        lemma_type_of_ranked(m, r, id, j);
        law_resolve_is_not_generic(m, r, j);
    }
}

} // verus!
