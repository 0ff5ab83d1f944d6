use amber_lsp::generics::{matches_type, GenericsMap};
use amber_lsp::types::{flatten_types, make_union_type, DataType};

#[test]
fn union_of_nothing_is_any() {
    assert_eq!(make_union_type(vec![]), DataType::Any);
}

#[test]
fn union_of_one_type_is_that_type() {
    assert_eq!(make_union_type(vec![DataType::Number]), DataType::Number);
}

#[test]
fn union_flattens_and_drops_repetitions() {
    let t = make_union_type(vec![
        DataType::Number,
        DataType::Union(vec![DataType::Text, DataType::Number]),
        DataType::Boolean,
    ]);
    assert_eq!(
        t,
        DataType::Union(vec![DataType::Number, DataType::Text, DataType::Boolean])
    );
}

#[test]
fn union_of_repeated_type_collapses() {
    let t = make_union_type(vec![DataType::Text, DataType::Union(vec![DataType::Text])]);
    assert_eq!(t, DataType::Text);
}

#[test]
fn union_is_idempotent() {
    let once = make_union_type(vec![
        DataType::Number,
        DataType::Union(vec![DataType::Text, DataType::Null]),
    ]);
    let twice = make_union_type(vec![once.clone()]);
    assert_eq!(once, twice);
}

#[test]
fn flatten_keeps_order_and_repetitions() {
    let ts = flatten_types(vec![
        DataType::Union(vec![DataType::Number, DataType::Union(vec![DataType::Text])]),
        DataType::Number,
    ]);
    assert_eq!(ts, vec![DataType::Number, DataType::Text, DataType::Number]);
}

#[test]
fn type_strings() {
    let g = GenericsMap::new();
    assert_eq!(DataType::Number.to_string(&g), "Num");
    assert_eq!(DataType::Boolean.to_string(&g), "Bool");
    assert_eq!(DataType::Error.to_string(&g), "<Invalid type>");
    assert_eq!(
        DataType::Array(Box::new(DataType::Text)).to_string(&g),
        "[Text]"
    );
    assert_eq!(
        DataType::Union(vec![DataType::Text, DataType::Null, DataType::Text]).to_string(&g),
        "Text | Null"
    );
    assert_eq!(
        DataType::Failable(Box::new(DataType::Union(vec![DataType::Text, DataType::Null])))
            .to_string(&g),
        "(Text | Null)?"
    );
    assert_eq!(
        DataType::Failable(Box::new(DataType::Number)).to_string(&g),
        "Num?"
    );
    assert_eq!(DataType::Generic(7).to_string(&g), "Any");
}

#[test]
fn any_matches_everything() {
    let g = GenericsMap::new();
    assert!(matches_type(&DataType::Any, &DataType::Number, &g));
    assert!(matches_type(&DataType::Text, &DataType::Any, &g));
    assert!(!matches_type(&DataType::Error, &DataType::Number, &g));
    assert!(!matches_type(&DataType::Text, &DataType::Number, &g));
}

#[test]
fn union_matching() {
    let g = GenericsMap::new();
    let num_or_text = DataType::Union(vec![DataType::Number, DataType::Text]);
    assert!(matches_type(&num_or_text, &DataType::Text, &g));
    assert!(!matches_type(&DataType::Text, &num_or_text, &g));
    assert!(matches_type(&num_or_text, &num_or_text, &g));
    assert!(matches_type(
        &DataType::Array(Box::new(DataType::Number)),
        &DataType::Array(Box::new(DataType::Number)),
        &g
    ));
    assert!(matches_type(
        &DataType::Number,
        &DataType::Failable(Box::new(DataType::Number)),
        &g
    ));
}

#[test]
fn constrain_narrows_an_unconstrained_generic() {
    let mut g = GenericsMap::new();
    g.constrain_generic_type(1, DataType::Number);
    assert_eq!(g.get(1), DataType::Number);
    assert!(matches_type(&DataType::Generic(1), &DataType::Number, &g));
    assert_eq!(DataType::Generic(1).to_string(&g), "Num");
    // a wider type does not replace a narrower one
    g.constrain_generic_type(1, DataType::Any);
    assert_eq!(g.get(1), DataType::Number);
}

#[test]
fn constrain_follows_generic_links() {
    let mut g = GenericsMap::new();
    g.constrain_generic_type(2, DataType::Generic(3));
    assert_eq!(g.get(2), DataType::Generic(3));
    g.constrain_generic_type(2, DataType::Text);
    assert_eq!(g.get(3), DataType::Text);
    assert_eq!(g.get_recursive(2), DataType::Text);
}

#[test]
fn constrain_refuses_self_reference() {
    let mut g = GenericsMap::new();
    g.constrain_generic_type(4, DataType::Array(Box::new(DataType::Generic(4))));
    assert_eq!(g.get(4), DataType::Any);
}

#[test]
fn deref_resolves_only_inferred_ids() {
    let mut g = GenericsMap::new();
    g.constrain_generic_type(5, DataType::Number);
    let t = DataType::Array(Box::new(DataType::Generic(5)));
    assert_eq!(g.deref_type(&t), t);
    g.mark_as_inferred(5);
    assert!(g.is_inferred(5));
    assert_eq!(
        g.deref_type(&t),
        DataType::Array(Box::new(DataType::Number))
    );
}

#[test]
fn clean_forgets_the_ids_of_a_file_version() {
    let mut g = GenericsMap::new();
    g.constrain_generic_type(8, DataType::Text);
    g.mark_as_inferred(8);
    g.insert(0, 1, vec![8]);
    assert_eq!(g.get_generics(0, 1), vec![8]);
    g.clean(0, 1);
    assert_eq!(g.get(8), DataType::Any);
    assert!(!g.is_inferred(8));
    assert_eq!(g.get_generics(0, 1), Vec::<usize>::new());
}

#[test]
fn generics_map_listing() {
    let mut g = GenericsMap::new();
    g.constrain_generic_type(3, DataType::Text);
    g.constrain_generic_type(1, DataType::Number);
    assert_eq!(g.to_string(), "Num\nText");
    let copy = g.clone();
    assert_eq!(copy.get(3), DataType::Text);
}

#[test]
fn generic_ids_count_up_until_reset() {
    let mut g = GenericsMap::new();
    assert_eq!(g.new_generic_id(), 0);
    assert_eq!(g.new_generic_id(), 1);
    let copy = g.clone();
    assert_eq!(copy.peek_generic_id(), 2);
    g.reset_counter();
    assert_eq!(g.new_generic_id(), 0);
}

#[test]
fn any_accepts_every_type_and_error_free_types_match_themselves() {
    let mut g = GenericsMap::new();
    g.constrain_generic_type(1, DataType::Text);
    let types = vec![
        DataType::Number,
        DataType::Generic(1),
        DataType::Union(vec![DataType::Text, DataType::Null]),
        DataType::Array(Box::new(DataType::Boolean)),
        DataType::Failable(Box::new(DataType::Failable(Box::new(DataType::Number)))),
        DataType::Error,
    ];
    for t in &types {
        assert!(matches_type(&DataType::Any, t, &g));
    }
    let plain = DataType::Failable(Box::new(DataType::Array(Box::new(DataType::Failable(Box::new(DataType::Text))))));
    assert!(matches_type(&plain, &plain, &g));
    let nested = DataType::Failable(Box::new(DataType::Union(vec![
        DataType::Number,
        DataType::Union(vec![DataType::Text, DataType::Failable(Box::new(DataType::Null))]),
        DataType::Array(Box::new(DataType::Union(vec![DataType::Boolean, DataType::Any]))),
    ])));
    assert!(matches_type(&nested, &nested, &g));
    let generic = DataType::Union(vec![DataType::Generic(1), DataType::Array(Box::new(DataType::Generic(1)))]);
    assert!(matches_type(&generic, &generic, &g));
    let text = DataType::Union(vec![DataType::Text]);
    assert!(!matches_type(&text, &DataType::Number, &g));
}

#[test]
fn union_members_do_not_depend_on_order() {
    let a = make_union_type(vec![DataType::Number, DataType::Text, DataType::Number]);
    let b = make_union_type(vec![DataType::Text, DataType::Number, DataType::Number]);
    match (a, b) {
        (DataType::Union(x), DataType::Union(y)) => {
            assert_eq!(x.len(), 2);
            assert_eq!(y.len(), 2);
            assert!(x.iter().all(|t| y.contains(t)));
        }
        _ => panic!("expected unions"),
    }
    assert_eq!(make_union_type(vec![make_union_type(vec![])]), make_union_type(vec![]));
}

#[test]
fn self_referring_constraint_changes_nothing() {
    let mut g = GenericsMap::new();
    g.constrain_generic_type(0, DataType::Array(Box::new(DataType::Generic(0))));
    assert_eq!(g.get(0), DataType::Any);
}
