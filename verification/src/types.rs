use vstd::prelude::*;

verus! {

/// A data type of the Amber language, as the analyzer infers it.
#[derive(Debug, PartialEq, Eq, Hash)]
pub enum DataType {
    Any,
    Number,
    Boolean,
    Text,
    Null,
    Array(Box<DataType>),
    Union(Vec<DataType>),
    Generic(usize),
    Failable(Box<DataType>),
    Error,
}

/// The mathematical value of a [`DataType`]: the same tree, with the
/// members of a union held in a sequence.
pub enum Ty {
    Any,
    Number,
    Boolean,
    Text,
    Null,
    Array(Box<Ty>),
    Union(Seq<Ty>),
    Generic(usize),
    Failable(Box<Ty>),
    Error,
}

pub open spec fn view_type(t: DataType) -> Ty
    decreases t,
{
    match t {
        DataType::Any => Ty::Any,
        DataType::Number => Ty::Number,
        DataType::Boolean => Ty::Boolean,
        DataType::Text => Ty::Text,
        DataType::Null => Ty::Null,
        DataType::Array(inner) => Ty::Array(Box::new(view_type(*inner))),
        DataType::Union(ts) => Ty::Union(view_types(ts@)),
        DataType::Generic(id) => Ty::Generic(id),
        DataType::Failable(inner) => Ty::Failable(Box::new(view_type(*inner))),
        DataType::Error => Ty::Error,
    }
}

pub open spec fn view_types(ts: Seq<DataType>) -> Seq<Ty>
    decreases ts,
{
    if ts.len() == 0 {
        Seq::empty()
    } else {
        seq![view_type(ts[0])] + view_types(ts.drop_first())
    }
}

/// The view of a list of types has the views of its members, in order.
pub proof fn lemma_view_types(ts: Seq<DataType>)
    ensures
        view_types(ts).len() == ts.len(),
        forall|i: int| 0 <= i < ts.len() ==> #[trigger] view_types(ts)[i] == view_type(ts[i]),
    decreases ts.len(),
{
    if ts.len() > 0 {
        lemma_view_types(ts.drop_first());
        assert forall|i: int| 0 <= i < ts.len() implies #[trigger] view_types(ts)[i] == view_type(
            ts[i],
        ) by {
            if i > 0 {
                assert(ts.drop_first()[i - 1] == ts[i]);
            }
        }
    }
}

/// Two lists of types whose members have equal views have equal views.
pub proof fn lemma_view_types_ext(a: Seq<DataType>, b: Seq<DataType>)
    requires
        a.len() == b.len(),
        forall|i: int| 0 <= i < a.len() ==> view_type(#[trigger] a[i]) == view_type(b[i]),
    ensures
        view_types(a) == view_types(b),
{
    lemma_view_types(a);
    lemma_view_types(b);
    assert(view_types(a) =~= view_types(b));
}

/// The view of a type has the same outermost form as the type.
pub proof fn lemma_view_form(t: DataType)
    ensures
        (view_type(t) is Generic) <==> (t is Generic),
        (view_type(t) is Union) <==> (t is Union),
        (view_type(t) is Array) <==> (t is Array),
        (view_type(t) is Failable) <==> (t is Failable),
        (view_type(t) is Any) <==> (t is Any),
        (view_type(t) is Error) <==> (t is Error),
        t is Generic ==> view_type(t) == Ty::Generic(t->Generic_0),
{
}

impl View for DataType {
    type V = Ty;

    open spec fn view(&self) -> Ty {
        view_type(*self)
    }
}

impl DataType {
    /// A copy of `self`, member by member.
    pub fn copy(&self) -> (r: DataType)
        ensures
            r@ == self@,
        decreases self,
    {
        match self {
            DataType::Any => DataType::Any,
            DataType::Number => DataType::Number,
            DataType::Boolean => DataType::Boolean,
            DataType::Text => DataType::Text,
            DataType::Null => DataType::Null,
            DataType::Array(inner) => DataType::Array(Box::new((**inner).copy())),
            DataType::Union(ts) => DataType::Union(copy_types(ts)),
            DataType::Generic(id) => DataType::Generic(*id),
            DataType::Failable(inner) => DataType::Failable(Box::new((**inner).copy())),
            DataType::Error => DataType::Error,
        }
    }
}

/// A copy of a list of types, member by member.
pub fn copy_types(ts: &Vec<DataType>) -> (r: Vec<DataType>)
    ensures
        view_types(r@) == view_types(ts@),
    decreases ts,
{
    let mut r: Vec<DataType> = Vec::new();
    let mut i: usize = 0;
    while i < ts.len()
        invariant
            i <= ts.len(),
            r@.len() == i,
            forall|j: int| 0 <= j < i ==> view_type(#[trigger] r@[j]) == view_type(ts@[j]),
        decreases ts.len() - i,
    {
        let c = ts[i].copy();
        r.push(c);
        i += 1;
    }
    proof {
        lemma_view_types_ext(r@, ts@);
    }
    r
}

/// Whether two types are the same type: member by member, in order.
pub fn same_type(a: &DataType, b: &DataType) -> (r: bool)
    ensures
        r == (a@ == b@),
    decreases a,
{
    match (a, b) {
        (DataType::Any, DataType::Any) => true,
        (DataType::Number, DataType::Number) => true,
        (DataType::Boolean, DataType::Boolean) => true,
        (DataType::Text, DataType::Text) => true,
        (DataType::Null, DataType::Null) => true,
        (DataType::Error, DataType::Error) => true,
        (DataType::Generic(x), DataType::Generic(y)) => *x == *y,
        (DataType::Array(x), DataType::Array(y)) => same_type(&**x, &**y),
        (DataType::Failable(x), DataType::Failable(y)) => same_type(&**x, &**y),
        (DataType::Union(xs), DataType::Union(ys)) => {
            proof {
                lemma_view_types(xs@);
                lemma_view_types(ys@);
            }
            if xs.len() != ys.len() {
                return false;
            }
            let mut i: usize = 0;
            #[verifier::loop_isolation(false)]
            while i < xs.len()
                invariant
                    i <= xs.len(),
                    xs.len() == ys.len(),
                    view_types(xs@).len() == xs.len(),
                    view_types(ys@).len() == ys.len(),
                    forall|j: int| 0 <= j < xs.len() ==> #[trigger] view_types(xs@)[j] == view_type(xs@[j]),
                    forall|j: int| 0 <= j < ys.len() ==> #[trigger] view_types(ys@)[j] == view_type(ys@[j]),
                    forall|j: int| 0 <= j < i ==> view_type(#[trigger] xs@[j]) == view_type(ys@[j]),
                decreases xs.len() - i,
            {
                if !same_type(&xs[i], &ys[i]) {
                    assert(view_types(xs@)[i as int] != view_types(ys@)[i as int]);
                    return false;
                }
                i += 1;
            }
            proof {
                lemma_view_types_ext(xs@, ys@);
            }
            true
        },
        _ => false,
    }
}

impl Clone for DataType {
    fn clone(&self) -> (r: Self)
        ensures
            r@ == self@,
    {
        self.copy()
    }
}

/// The members of a list of types, with every union replaced by its own
/// members, recursively: a list in which no union is left.
pub open spec fn flatten(ts: Seq<Ty>) -> Seq<Ty>
    decreases ts,
{
    if ts.len() == 0 {
        Seq::empty()
    } else {
        let rest = flatten(ts.drop_first());
        match ts[0] {
            Ty::Union(inner) => flatten(inner) + rest,
            t => seq![t] + rest,
        }
    }
}

/// The list `ts` without repetitions: each type stays where it occurs
/// first, and its later occurrences are left out.
pub open spec fn dedup<A>(ts: Seq<A>) -> Seq<A>
    decreases ts.len(),
{
    if ts.len() == 0 {
        Seq::empty()
    } else {
        let d = dedup(ts.drop_last());
        if d.contains(ts.last()) {
            d
        } else {
            d.push(ts.last())
        }
    }
}

/// The union of a list of types: `Any` for no type, the single type where
/// flattening and removing repetitions leave one, and a union of what
/// they leave otherwise.
pub open spec fn union_of(ts: Seq<Ty>) -> Ty {
    if ts.len() == 0 {
        Ty::Any
    } else {
        let d = dedup(flatten(ts));
        if d.len() == 1 {
            d[0]
        } else {
            Ty::Union(d)
        }
    }
}

pub proof fn lemma_flatten_append(a: Seq<Ty>, b: Seq<Ty>)
    ensures
        flatten(a + b) == flatten(a) + flatten(b),
    decreases a.len(),
{
    if a.len() == 0 {
        assert(a + b =~= b);
    } else {
        lemma_flatten_append(a.drop_first(), b);
        assert((a + b).drop_first() =~= a.drop_first() + b);
        assert((a + b)[0] == a[0]);
        match a[0] {
            Ty::Union(inner) => {
                assert(flatten(inner) + (flatten(a.drop_first()) + flatten(b)) =~= (flatten(inner)
                    + flatten(a.drop_first())) + flatten(b));
            },
            t => {
                assert(seq![t] + (flatten(a.drop_first()) + flatten(b)) =~= (seq![t] + flatten(
                    a.drop_first(),
                )) + flatten(b));
            },
        }
    }
}

pub proof fn lemma_view_types_push(a: Seq<DataType>, x: DataType)
    ensures
        view_types(a.push(x)) == view_types(a).push(view_type(x)),
{
    lemma_view_types(a);
    lemma_view_types(a.push(x));
    assert(view_types(a.push(x)) =~= view_types(a).push(view_type(x)));
}

pub proof fn lemma_view_types_append(a: Seq<DataType>, b: Seq<DataType>)
    ensures
        view_types(a + b) == view_types(a) + view_types(b),
{
    lemma_view_types(a);
    lemma_view_types(b);
    lemma_view_types(a + b);
    assert(view_types(a + b) =~= view_types(a) + view_types(b));
}

/// The members of `types`, with every union replaced by its own members,
/// recursively.
pub fn flatten_types(types: Vec<DataType>) -> (r: Vec<DataType>)
    ensures
        view_types(r@) == flatten(view_types(types@)),
    decreases view_types(types@),
{
    let mut r: Vec<DataType> = Vec::new();
    let mut i: usize = 0;
    proof {
        lemma_view_types(types@);
        assert(types@.take(0) =~= Seq::<DataType>::empty());
    }
    #[verifier::loop_isolation(false)]
    while i < types.len()
        invariant
            i <= types.len(),
            view_types(r@) == flatten(view_types(types@.take(i as int))),
        decreases types.len() - i,
    {
        let ghost before = r@;
        match &types[i] {
            DataType::Union(inner) => {
                let copied = copy_types(inner);
                proof {
                    let v = view_types(types@);
                    assert(v[i as int] == view_type(types@[i as int]));
                    assert(v[i as int] == Ty::Union(view_types(copied@)));
                    assert(decreases_to!(v => v[i as int]));
                    assert(decreases_to!(v[i as int] => v[i as int]->Union_0));
                }
                let mut flat = flatten_types(copied);
                let ghost fl = flat@;
                r.append(&mut flat);
                proof {
                    lemma_view_types_append(before, fl);
                }
            },
            t => {
                let c = t.copy();
                r.push(c);
                proof {
                    lemma_view_types_push(before, c);
                }
            },
        }
        proof {
            let s = types@.take(i as int);
            let x = types@[i as int];
            assert(types@.take(i + 1) =~= s.push(x));
            lemma_view_types_push(s, x);
            lemma_flatten_append(view_types(s), seq![view_type(x)]);
            assert(view_types(s).push(view_type(x)) =~= view_types(s) + seq![view_type(x)]);
            let one = seq![view_type(x)];
            assert(one.drop_first() =~= Seq::<Ty>::empty());
            assert(flatten(one.drop_first()) =~= Seq::<Ty>::empty());
            match view_type(x) {
                Ty::Union(inner) => {
                    assert(flatten(one) =~= flatten(inner));
                },
                t => {
                    assert(flatten(one) =~= seq![t]);
                },
            }
        }
        i += 1;
    }
    proof {
        assert(types@.take(types.len() as int) =~= types@);
    }
    r
}

/// Whether one of `ts` is the same type as `t`.
pub fn contains_type(ts: &Vec<DataType>, t: &DataType) -> (r: bool)
    ensures
        r == view_types(ts@).contains(t@),
{
    proof {
        lemma_view_types(ts@);
    }
    let mut i: usize = 0;
    while i < ts.len()
        invariant
            i <= ts.len(),
            view_types(ts@).len() == ts.len(),
            forall|j: int| 0 <= j < ts.len() ==> #[trigger] view_types(ts@)[j] == view_type(ts@[j]),
            forall|j: int| 0 <= j < i ==> view_types(ts@)[j] != t@,
        decreases ts.len() - i,
    {
        if same_type(&ts[i], t) {
            assert(view_types(ts@)[i as int] == t@);
            return true;
        }
        i += 1;
    }
    false
}

/// The union of `types`: `Any` when there is none; otherwise the members
/// of `types` with unions replaced by their members, recursively, and
/// repetitions left out, as the single type where one is left and as a
/// union of them otherwise.
pub fn make_union_type(types: Vec<DataType>) -> (r: DataType)
    ensures
        r@ == union_of(view_types(types@)),
{
    if types.len() == 0 {
        proof {
            lemma_view_types(types@);
        }
        return DataType::Any;
    }
    proof {
        lemma_view_types(types@);
    }
    let flat = flatten_types(types);
    let mut dedup_types: Vec<DataType> = Vec::new();
    let mut i: usize = 0;
    proof {
        lemma_view_types(flat@);
        assert(view_types(flat@).take(0) =~= Seq::<Ty>::empty());
    }
    while i < flat.len()
        invariant
            i <= flat.len(),
            view_types(flat@).len() == flat.len(),
            forall|j: int| 0 <= j < flat.len() ==> #[trigger] view_types(flat@)[j] == view_type(flat@[j]),
            view_types(dedup_types@) == dedup(view_types(flat@).take(i as int)),
        decreases flat.len() - i,
    {
        let ghost vs = view_types(flat@);
        proof {
            assert(vs.take(i + 1).drop_last() =~= vs.take(i as int));
            assert(vs.take(i + 1).last() == vs[i as int]);
        }
        if !contains_type(&dedup_types, &flat[i]) {
            let c = flat[i].copy();
            proof {
                lemma_view_types_push(dedup_types@, c);
            }
            dedup_types.push(c);
        }
        i += 1;
    }
    proof {
        assert(view_types(flat@).take(flat.len() as int) =~= view_types(flat@));
        lemma_view_types(dedup_types@);
    }
    if dedup_types.len() == 1 {
        dedup_types[0].copy()
    } else {
        DataType::Union(dedup_types)
    }
}

/// No member of `ts` is a union.
pub open spec fn union_free(ts: Seq<Ty>) -> bool {
    forall|i: int| 0 <= i < ts.len() ==> !(#[trigger] ts[i] is Union)
}

/// No type occurs twice in `ts`.
pub open spec fn distinct<A>(ts: Seq<A>) -> bool {
    forall|i: int, j: int| 0 <= i < j < ts.len() ==> #[trigger] ts[i] != #[trigger] ts[j]
}

pub proof fn lemma_flatten_union_free(ts: Seq<Ty>)
    ensures
        union_free(flatten(ts)),
    decreases ts,
{
    if ts.len() > 0 {
        lemma_flatten_union_free(ts.drop_first());
        match ts[0] {
            Ty::Union(inner) => {
                assert(decreases_to!(ts => ts[0]));
                assert(decreases_to!(ts[0] => ts[0]->Union_0));
                lemma_flatten_union_free(inner);
                let f = flatten(inner) + flatten(ts.drop_first());
                assert forall|i: int| 0 <= i < f.len() implies !(#[trigger] f[i] is Union) by {
                    if i >= flatten(inner).len() {
                        assert(f[i] == flatten(ts.drop_first())[i - flatten(inner).len()]);
                    }
                }
            },
            t => {
                let f = seq![t] + flatten(ts.drop_first());
                assert forall|i: int| 0 <= i < f.len() implies !(#[trigger] f[i] is Union) by {
                    if i >= 1 {
                        assert(f[i] == flatten(ts.drop_first())[i - 1]);
                    }
                }
            },
        }
    }
}

pub proof fn lemma_flatten_of_union_free(ts: Seq<Ty>)
    requires
        union_free(ts),
    ensures
        flatten(ts) == ts,
    decreases ts.len(),
{
    if ts.len() > 0 {
        assert(!(ts[0] is Union));
        lemma_flatten_of_union_free(ts.drop_first());
        assert(seq![ts[0]] + ts.drop_first() =~= ts);
    } else {
        assert(ts =~= Seq::<Ty>::empty());
    }
}

pub proof fn lemma_dedup<A>(ts: Seq<A>)
    ensures
        distinct(dedup(ts)),
        forall|x: A| dedup(ts).contains(x) <==> ts.contains(x),
    decreases ts.len(),
{
    if ts.len() > 0 {
        let p = ts.drop_last();
        lemma_dedup(p);
        assert forall|x: A| ts.contains(x) <==> p.contains(x) || x == ts.last() by {
            if ts.contains(x) {
                let k = choose|k: int| 0 <= k < ts.len() && ts[k] == x;
                if k < ts.len() - 1 {
                    assert(p[k] == x);
                }
            }
            if p.contains(x) {
                let k = choose|k: int| 0 <= k < p.len() && p[k] == x;
                assert(ts[k] == x);
            }
            if x == ts.last() {
                assert(ts[ts.len() - 1] == x);
            }
        }
        let d = dedup(p);
        if !d.contains(ts.last()) {
            let e = d.push(ts.last());
            assert forall|x: A| e.contains(x) <==> d.contains(x) || x == ts.last() by {
                if e.contains(x) {
                    let k = choose|k: int| 0 <= k < e.len() && e[k] == x;
                    if k < d.len() {
                        assert(d[k] == x);
                    }
                }
                if d.contains(x) {
                    let k = choose|k: int| 0 <= k < d.len() && d[k] == x;
                    assert(e[k] == x);
                }
                if x == ts.last() {
                    assert(e[d.len() as int] == x);
                }
            }
            assert forall|i: int, j: int| 0 <= i < j < e.len() implies #[trigger] e[i] != #[trigger] e[j] by {
                if j == d.len() {
                    assert(d[i] == e[i]);
                } else {
                    assert(d[i] == e[i] && d[j] == e[j]);
                }
            }
        }
    } else {
        assert(dedup(ts) =~= Seq::<A>::empty());
    }
}

pub proof fn lemma_dedup_of_distinct(ts: Seq<Ty>)
    requires
        distinct(ts),
    ensures
        dedup(ts) == ts,
    decreases ts.len(),
{
    if ts.len() > 0 {
        let p = ts.drop_last();
        assert(distinct(p)) by {
            assert forall|i: int, j: int| 0 <= i < j < p.len() implies #[trigger] p[i] != #[trigger] p[j] by {
                assert(ts[i] == p[i] && ts[j] == p[j]);
            }
        }
        lemma_dedup_of_distinct(p);
        assert(!p.contains(ts.last())) by {
            if p.contains(ts.last()) {
                let k = choose|k: int| 0 <= k < p.len() && p[k] == ts.last();
                assert(ts[k] == ts[ts.len() - 1]);
            }
        }
        assert(p.push(ts.last()) =~= ts);
    } else {
        assert(ts =~= Seq::<Ty>::empty());
    }
}

/// The members of a union that [`make_union_type`] builds are not unions,
/// and none of them occurs twice.
pub proof fn law_union_members_flat_and_distinct(ts: Seq<Ty>)
    ensures
        union_of(ts) matches Ty::Union(members) ==> union_free(members) && distinct(members),
{
    if ts.len() > 0 {
        lemma_flatten_union_free(ts);
        lemma_dedup(flatten(ts));
        let d = dedup(flatten(ts));
        assert forall|i: int| 0 <= i < d.len() implies !(#[trigger] d[i] is Union) by {
            assert(d.contains(d[i]));
            assert(flatten(ts).contains(d[i]));
        }
    }
}

/// Making a union of a union that [`make_union_type`] built gives that
/// union back.
pub proof fn law_union_of_idempotent(ts: Seq<Ty>)
    ensures
        union_of(seq![union_of(ts)]) == union_of(ts),
{
    if ts.len() == 0 {
        law_union_of_single(Ty::Any);
        return;
    }
    law_union_members_flat_and_distinct(ts);
    lemma_flatten_union_free(ts);
    lemma_dedup(flatten(ts));
    let d = dedup(flatten(ts));
    let u = union_of(ts);
    let one = seq![u];
    assert(one.drop_first() =~= Seq::<Ty>::empty());
    assert(flatten(one.drop_first()) =~= Seq::<Ty>::empty());
    if d.len() == 1 {
        assert(d.contains(d[0]));
        assert(flatten(ts).contains(d[0]));
        assert(!(u is Union));
        assert(flatten(one) =~= one);
        assert(dedup(one.drop_last()) =~= Seq::<Ty>::empty());
        assert(dedup(one) =~= one);
    } else {
        lemma_flatten_of_union_free(d);
        assert(flatten(one) =~= flatten(d));
        lemma_dedup_of_distinct(d);
    }
}

/// The union of a single type that is not a union is that type.
pub proof fn law_union_of_single(t: Ty)
    requires
        !(t is Union),
    ensures
        union_of(seq![t]) == t,
{
    let one = seq![t];
    assert(one.drop_first() =~= Seq::<Ty>::empty());
    assert(flatten(one.drop_first()) =~= Seq::<Ty>::empty());
    assert(flatten(one) =~= one);
    assert(dedup(one.drop_last()) =~= Seq::<Ty>::empty());
    assert(dedup(one) =~= one);
}

/// What a type contributes to a flattened list: the flattened members of
/// a union, and any other type itself.
pub open spec fn flat_one(t: Ty) -> Seq<Ty> {
    match t {
        Ty::Union(inner) => flatten(inner),
        t => seq![t],
    }
}

/// The members of a type taken as a union: those of a union, and any other
/// type alone.
pub open spec fn union_members(t: Ty) -> Set<Ty> {
    match t {
        Ty::Union(ts) => ts.to_set(),
        t => set![t],
    }
}

proof fn lemma_concat_contains<A>(p: Seq<A>, q: Seq<A>, x: A)
    ensures
        (p + q).contains(x) <==> p.contains(x) || q.contains(x),
{
    if (p + q).contains(x) {
        let k = choose|k: int| 0 <= k < (p + q).len() && (p + q)[k] == x;
        if k < p.len() {
            assert(p[k] == x);
        } else {
            assert(q[k - p.len()] == x);
        }
    }
    if p.contains(x) {
        let k = choose|k: int| 0 <= k < p.len() && p[k] == x;
        assert((p + q)[k] == x);
    }
    if q.contains(x) {
        let k = choose|k: int| 0 <= k < q.len() && q[k] == x;
        assert((p + q)[k + p.len()] == x);
    }
}

/// A type is in the flattened list when one of the list's types
/// contributes it.
proof fn lemma_flatten_contains(ts: Seq<Ty>, x: Ty)
    ensures
        flatten(ts).contains(x) <==> exists|i: int| 0 <= i < ts.len() && #[trigger] flat_one(ts[i]).contains(x),
    decreases ts.len(),
{
    if ts.len() > 0 {
        let rest = ts.drop_first();
        lemma_flatten_contains(rest, x);
        assert(flatten(ts) == flat_one(ts[0]) + flatten(rest));
        lemma_concat_contains(flat_one(ts[0]), flatten(rest), x);
        if exists|i: int| 0 <= i < rest.len() && #[trigger] flat_one(rest[i]).contains(x) {
            let i = choose|i: int| 0 <= i < rest.len() && #[trigger] flat_one(rest[i]).contains(x);
            assert(ts[i + 1] == rest[i]);
            assert(flat_one(ts[i + 1]).contains(x));
        }
        if exists|i: int| 0 <= i < ts.len() && #[trigger] flat_one(ts[i]).contains(x) {
            let i = choose|i: int| 0 <= i < ts.len() && #[trigger] flat_one(ts[i]).contains(x);
            if i > 0 {
                assert(rest[i - 1] == ts[i]);
                assert(flat_one(rest[i - 1]).contains(x));
            }
        }
    }
}

/// The members of the union of a non-empty list are those of its
/// flattened list without repetitions.
proof fn lemma_union_members(ts: Seq<Ty>)
    requires
        ts.len() > 0,
    ensures
        union_members(union_of(ts)) == dedup(flatten(ts)).to_set(),
{
    let d = dedup(flatten(ts));
    lemma_flatten_union_free(ts);
    lemma_dedup(flatten(ts));
    if d.len() == 1 {
        assert(d.contains(d[0]));
        assert(flatten(ts).contains(d[0]));
        let k = choose|k: int| 0 <= k < flatten(ts).len() && flatten(ts)[k] == d[0];
        assert(!(flatten(ts)[k] is Union));
        assert(set![d[0]] =~= d.to_set()) by {
            assert forall|x: Ty| d.to_set().contains(x) implies x == d[0] by {
                let j = choose|j: int| 0 <= j < d.len() && d[j] == x;
            }
        }
    }
}

/// The order of a list of types, and how often each type occurs in it, do
/// not change the members of its union: two lists with the same types the
/// same number of times make unions of the same members.
pub proof fn law_union_ignores_order(a: Seq<Ty>, b: Seq<Ty>)
    requires
        a.to_multiset() == b.to_multiset(),
    ensures
        union_members(union_of(a)) == union_members(union_of(b)),
{
    a.to_multiset_ensures();
    b.to_multiset_ensures();
    assert(a.len() == a.to_multiset().len());
    assert(b.len() == b.to_multiset().len());
    if a.len() > 0 {
        assert forall|x: Ty| a.contains(x) <==> b.contains(x) by {
            assert(a.contains(x) <==> a.to_multiset().count(x) > 0);
            assert(b.contains(x) <==> b.to_multiset().count(x) > 0);
        }
        assert forall|x: Ty| flatten(a).contains(x) <==> flatten(b).contains(x) by {
            lemma_flatten_contains(a, x);
            lemma_flatten_contains(b, x);
            if flatten(a).contains(x) {
                let i = choose|i: int| 0 <= i < a.len() && #[trigger] flat_one(a[i]).contains(x);
                assert(a.contains(a[i]));
                let j = choose|j: int| 0 <= j < b.len() && b[j] == a[i];
                assert(flat_one(b[j]).contains(x));
            }
            if flatten(b).contains(x) {
                let j = choose|j: int| 0 <= j < b.len() && #[trigger] flat_one(b[j]).contains(x);
                assert(b.contains(b[j]));
                let i = choose|i: int| 0 <= i < a.len() && a[i] == b[j];
                assert(flat_one(a[i]).contains(x));
            }
        }
        lemma_dedup(flatten(a));
        lemma_dedup(flatten(b));
        lemma_union_members(a);
        lemma_union_members(b);
        assert forall|x: Ty| dedup(flatten(a)).to_set().contains(x) <==> dedup(flatten(b)).to_set().contains(x) by {
            assert(dedup(flatten(a)).contains(x) <==> flatten(a).contains(x));
            assert(dedup(flatten(b)).contains(x) <==> flatten(b).contains(x));
        }
        assert(dedup(flatten(a)).to_set() =~= dedup(flatten(b)).to_set());
    }
}

} // verus!
