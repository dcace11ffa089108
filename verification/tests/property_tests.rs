#![allow(dead_code)]

use memquery::collection::Collection;
use memquery::errors::Error;
use memquery::eval::evaluate;
use memquery::update::{apply_update, has_update_operations};
use memquery::utils::{
    all, any, has_comparison_op, is_comparison_op, is_embedded_query, is_key_valid_op,
    is_logical_op, is_op, CmpOp,
};
use memquery::value::{deep_copy, value_eq, Value};

fn sv(x: &str) -> Value {
    Value::text(x)
}

fn nv(x: i64) -> Value {
    Value::num(x)
}

fn av(items: Vec<Value>) -> Value {
    Value::Arr(items)
}

fn ov(pairs: Vec<(&str, Value)>) -> Value {
    let mut fields: Vec<(String, Value)> = Vec::new();
    for (k, v) in pairs {
        fields.push((k.to_string(), v));
    }
    Value::Obj(fields)
}

#[test]
fn empty_query_matches_everything() {
    let docs = vec![
        ov(vec![("name", sv("Rob")), ("age", nv(25))]),
        ov(vec![]),
        ov(vec![("deep", ov(vec![("x", av(vec![nv(1), Value::Null]))]))]),
    ];
    for d in &docs {
        assert_eq!(evaluate(&ov(vec![]), d), Ok(true));
    }
}

#[test]
fn literal_equality_is_structural() {
    let d = ov(vec![("name", sv("Bob")), ("age", nv(20))]);
    assert_eq!(evaluate(&ov(vec![("name", sv("Bob"))]), &d), Ok(true));
    assert_eq!(evaluate(&ov(vec![("name", sv("Rob"))]), &d), Ok(false));
    assert_eq!(evaluate(&ov(vec![("missing", sv("Bob"))]), &d), Ok(false));
    assert_eq!(evaluate(&ov(vec![("missing", Value::Null)]), &d), Ok(true));
}

#[test]
fn and_is_conjunctive() {
    let docs = vec![
        ov(vec![("name", sv("Bob")), ("age", nv(20))]),
        ov(vec![("name", sv("Bob")), ("age", nv(21))]),
        ov(vec![("name", sv("Rob")), ("age", nv(20))]),
        ov(vec![]),
    ];
    for d in &docs {
        let with_and = ov(vec![("$and", av(vec![
            ov(vec![("name", sv("Bob"))]),
            ov(vec![("age", nv(20))]),
        ]))]);
        let flat = ov(vec![("name", sv("Bob")), ("age", nv(20))]);
        assert_eq!(evaluate(&with_and, d), evaluate(&flat, d));
    }
}

#[test]
fn or_is_disjunctive() {
    let docs = vec![
        ov(vec![("name", sv("Rob")), ("age", nv(25))]),
        ov(vec![("name", sv("Bob")), ("age", nv(20))]),
        ov(vec![("name", sv("Tom")), ("age", nv(30))]),
    ];
    let q = ov(vec![("$or", av(vec![
        ov(vec![("name", sv("Bob"))]),
        ov(vec![("age", nv(30))]),
    ]))]);
    let mut matches = 0;
    for d in &docs {
        if evaluate(&q, d).unwrap() {
            matches += 1;
        }
    }
    assert_eq!(matches, 2);
}

#[test]
fn array_to_scalar_eq_matches_any_element() {
    let d = ov(vec![("tags", av(vec![sv("A"), sv("B"), sv("C")]))]);
    let q = ov(vec![("tags", ov(vec![("$eq", sv("B"))]))]);
    assert_eq!(evaluate(&q, &d), Ok(true));
}

#[test]
fn array_to_array_eq_matches_nested_element() {
    let d = ov(vec![("tags", av(vec![av(vec![sv("A"), sv("B")]), sv("C")]))]);
    let q = ov(vec![("tags", ov(vec![("$eq", av(vec![sv("A"), sv("B")]))]))]);
    assert_eq!(evaluate(&q, &d), Ok(true));
}

#[test]
fn nested_arrays_are_never_unwrapped() {
    let d = ov(vec![("tags", av(vec![av(vec![sv("A")])]))]);
    let q = ov(vec![("tags", ov(vec![("$eq", sv("A"))]))]);
    assert_eq!(evaluate(&q, &d), Ok(false));
}

#[test]
fn dotted_path_resolution() {
    let d = ov(vec![("item", ov(vec![("name", sv("ab")), ("code", sv("123"))]))]);
    let q = ov(vec![("item.name", ov(vec![("$eq", sv("ab"))]))]);
    assert_eq!(evaluate(&q, &d), Ok(true));
}

#[test]
fn full_replace_vs_set_merge() {
    let mut d1 = ov(vec![("name", sv("Bob")), ("age", nv(20))]);
    apply_update(&ov(vec![("nickname", sv("Bobcat"))]), &mut d1).unwrap();
    assert_eq!(d1, ov(vec![("nickname", sv("Bobcat"))]));

    let mut d2 = ov(vec![("name", sv("Bob")), ("age", nv(20))]);
    apply_update(&ov(vec![("$set", ov(vec![("nickname", sv("Bobcat"))]))]), &mut d2).unwrap();
    assert_eq!(
        d2,
        ov(vec![("name", sv("Bob")), ("age", nv(20)), ("nickname", sv("Bobcat"))]),
    );
}

#[test]
fn mixed_update_keys_rejected() {
    let mut d = ov(vec![("name", sv("Bob"))]);
    let r = apply_update(
        &ov(vec![("$set", ov(vec![("nickname", sv("Bobcat"))])), ("name", sv("x"))]),
        &mut d,
    );
    assert_eq!(r, Err(Error::InvalidOperator));
    assert_eq!(d, ov(vec![("name", sv("Bob"))]));
}

#[test]
fn inc_keeps_common_numeric_representation() {
    let mut d = ov(vec![("age", nv(20))]);
    apply_update(&ov(vec![("$inc", ov(vec![("age", nv(-5))]))]), &mut d).unwrap();
    let age = d.get("age").unwrap();
    assert_eq!(age.as_u64(), Some(15));
    assert_eq!(age.as_i64(), Some(15));
    let mut d2 = ov(vec![("age", nv(3))]);
    apply_update(&ov(vec![("$inc", ov(vec![("age", nv(-5))]))]), &mut d2).unwrap();
    assert_eq!(d2.get("age").unwrap(), &nv(-2));
}

#[test]
fn unset_is_idempotent() {
    let mut d = ov(vec![("name", sv("Bob")), ("email", sv("bob@test.com"))]);
    let unset = ov(vec![("$unset", ov(vec![("email", sv(""))]))]);
    apply_update(&unset, &mut d).unwrap();
    let once = deep_copy(&d);
    apply_update(&unset, &mut d).unwrap();
    assert_eq!(d, once);
    let mut absent = ov(vec![("name", sv("Bob"))]);
    assert_eq!(apply_update(&unset, &mut absent), Ok(()));
    assert_eq!(absent, ov(vec![("name", sv("Bob"))]));
    let mut no_branch = ov(vec![("name", sv("Bob"))]);
    let deep_unset = ov(vec![("$unset", ov(vec![("a.b.c", sv(""))]))]);
    assert_eq!(apply_update(&deep_unset, &mut no_branch), Ok(()));
    assert_eq!(no_branch, ov(vec![("name", sv("Bob"))]));
}

#[test]
fn insert_then_find_round_trips() {
    let mut coll = Collection::new();
    let d = ov(vec![
        ("name", sv("Rob")),
        ("tags", av(vec![nv(1), Value::Bool(true), Value::Null])),
        ("item", ov(vec![("code", sv("123"))])),
    ]);
    let copy = ov(vec![
        ("name", sv("Rob")),
        ("tags", av(vec![nv(1), Value::Bool(true), Value::Null])),
        ("item", ov(vec![("code", sv("123"))])),
    ]);
    coll.insert(d).unwrap();
    let docs = coll.find(&ov(vec![])).unwrap();
    assert_eq!(docs.len(), 1);
    assert!(value_eq(&docs[0], &copy));
}

#[test]
fn insert_rejects_non_objects() {
    let mut coll = Collection::new();
    assert_eq!(coll.insert(nv(1)), Err(Error::NotAnObject));
    assert_eq!(coll.insert(av(vec![])), Err(Error::NotAnObject));
    assert_eq!(coll.len(), 0);
}

#[test]
fn non_object_query_rejected() {
    let coll = Collection::new();
    assert!(coll.find(&nv(1)).is_err());
    let d = ov(vec![]);
    assert_eq!(evaluate(&nv(1), &d), Err(Error::NotAnObject));
}

#[test]
fn unknown_operator_key_rejected() {
    let d = ov(vec![("age", nv(20))]);
    assert_eq!(evaluate(&ov(vec![("$bogus", nv(1))]), &d), Err(Error::InvalidOperator));
    assert_eq!(
        evaluate(&ov(vec![("item.$eq", nv(1))]), &d),
        Err(Error::InvalidOperator),
    );
}

#[test]
fn logical_value_must_be_array() {
    let d = ov(vec![("age", nv(20))]);
    assert_eq!(evaluate(&ov(vec![("$and", nv(1))]), &d), Err(Error::InvalidValue));
}

#[test]
fn comparison_operand_must_not_be_object() {
    let d = ov(vec![("age", nv(20))]);
    let q = ov(vec![("age", ov(vec![("$eq", ov(vec![("x", nv(1))]))]))]);
    assert_eq!(evaluate(&q, &d), Err(Error::InvalidValue));
}

#[test]
fn incompatible_comparison_is_a_type_error() {
    let d = ov(vec![("age", nv(20))]);
    let q = ov(vec![("age", ov(vec![("$gt", sv("20"))]))]);
    assert_eq!(evaluate(&q, &d), Err(Error::InvalidType));
}

#[test]
fn ordering_on_arrays_is_invalid() {
    let d = ov(vec![("tags", av(vec![sv("A")]))]);
    let q = ov(vec![("tags", ov(vec![("$gt", av(vec![sv("B")]))]))]);
    assert_eq!(evaluate(&q, &d), Err(Error::InvalidOperator));
}

#[test]
fn operator_in_update_path_rejected() {
    let mut d = ov(vec![("age", nv(20))]);
    let r = apply_update(&ov(vec![("$set", ov(vec![("$age", nv(1))]))]), &mut d);
    assert_eq!(r, Err(Error::OperatorNotAllowedInPath));
}

#[test]
fn inc_requires_numbers() {
    let mut d = ov(vec![("age", sv("20"))]);
    let r = apply_update(&ov(vec![("$inc", ov(vec![("age", nv(1))]))]), &mut d);
    assert_eq!(r, Err(Error::InvalidType));
    let mut d2 = ov(vec![("age", nv(20))]);
    let r2 = apply_update(&ov(vec![("$inc", ov(vec![("age", sv("1"))]))]), &mut d2);
    assert_eq!(r2, Err(Error::InvalidType));
}

#[test]
fn in_and_nin_evaluate_to_false() {
    let d = ov(vec![("age", nv(20))]);
    let q = ov(vec![("age", ov(vec![("$in", av(vec![nv(20)]))]))]);
    assert_eq!(evaluate(&q, &d), Ok(false));
    let q2 = ov(vec![("age", ov(vec![("$nin", av(vec![nv(20)]))]))]);
    assert_eq!(evaluate(&q2, &d), Ok(false));
}

#[test]
fn string_comparison_is_lexicographic() {
    let d = ov(vec![("name", sv("bb"))]);
    assert_eq!(evaluate(&ov(vec![("name", ov(vec![("$gt", sv("ba"))]))]), &d), Ok(true));
    assert_eq!(evaluate(&ov(vec![("name", ov(vec![("$lt", sv("bc"))]))]), &d), Ok(true));
    assert_eq!(evaluate(&ov(vec![("name", ov(vec![("$gte", sv("bb"))]))]), &d), Ok(true));
    assert_eq!(evaluate(&ov(vec![("name", ov(vec![("$lt", sv("b"))]))]), &d), Ok(false));
    assert_eq!(evaluate(&ov(vec![("name", ov(vec![("$gt", sv("b"))]))]), &d), Ok(true));
}

#[test]
fn mixed_sign_numbers_use_signed_representation() {
    let d = ov(vec![("n", nv(5))]);
    assert_eq!(evaluate(&ov(vec![("n", ov(vec![("$gt", nv(-3))]))]), &d), Ok(true));
    let d2 = ov(vec![("n", nv(-5))]);
    assert_eq!(evaluate(&ov(vec![("n", ov(vec![("$lt", nv(3))]))]), &d2), Ok(true));
}

#[test]
fn classification_helpers() {
    assert!(is_op("$eq"));
    assert!(!is_op("eq"));
    assert!(!is_op(""));
    assert!(is_logical_op("$and"));
    assert!(is_logical_op("$or"));
    assert!(!is_logical_op("$eq"));
    assert!(is_comparison_op(&ov(vec![("$eq", nv(1))])));
    assert!(!is_comparison_op(&ov(vec![("$eq", nv(1)), ("$gt", nv(2))])));
    assert!(!is_comparison_op(&ov(vec![])));
    assert!(!is_comparison_op(&nv(1)));
    match has_comparison_op(&ov(vec![("$gt", nv(7))])) {
        Some((op, operand)) => {
            assert_eq!(op, CmpOp::Gt);
            assert_eq!(operand, &nv(7));
        },
        None => panic!("expected a comparison operator"),
    }
    assert!(is_key_valid_op("name").is_ok());
    assert!(is_key_valid_op("$eq").is_ok());
    assert!(is_key_valid_op("$in").is_ok());
    assert!(is_key_valid_op("$bogus").is_err());
    assert!(is_key_valid_op("a.$eq").is_err());
}

#[test]
fn embedded_query_splitting() {
    let (embedded, segs) = is_embedded_query("item.name");
    assert!(embedded);
    assert_eq!(segs, vec!["item".to_string(), "name".to_string()]);
    let (embedded2, segs2) = is_embedded_query("name");
    assert!(!embedded2);
    assert_eq!(segs2, vec!["name".to_string()]);
}

#[test]
fn all_and_any_fold_booleans() {
    assert!(all(vec![]));
    assert!(all(vec![true, true]));
    assert!(!all(vec![true, false]));
    assert!(!any(vec![]));
    assert!(any(vec![false, true]));
    assert!(!any(vec![false, false]));
}

#[test]
fn update_classification() {
    assert_eq!(has_update_operations(&ov(vec![("$set", ov(vec![]))])), Ok(true));
    assert_eq!(has_update_operations(&ov(vec![("name", sv("x"))])), Ok(false));
    assert_eq!(has_update_operations(&ov(vec![])), Ok(true));
    assert_eq!(
        has_update_operations(&ov(vec![("$set", ov(vec![])), ("name", sv("x"))])),
        Err(Error::InvalidOperator),
    );
    assert_eq!(has_update_operations(&nv(1)), Err(Error::NotAnObject));
}

#[test]
fn unknown_update_operator_rejected() {
    let mut d = ov(vec![("age", nv(20))]);
    let r = apply_update(&ov(vec![("$rename", ov(vec![("age", sv("years"))]))]), &mut d);
    assert_eq!(r, Err(Error::InvalidOperator));
}

#[test]
fn update_error_leaves_document_unchanged() {
    let mut d = ov(vec![("age", nv(20))]);
    let r = apply_update(
        &ov(vec![
            ("$set", ov(vec![("name", sv("Roy"))])),
            ("$inc", ov(vec![("name", nv(1))])),
        ]),
        &mut d,
    );
    assert!(r.is_err());
    assert_eq!(d, ov(vec![("age", nv(20))]));
}

#[test]
fn set_creates_intermediate_objects() {
    let mut d = ov(vec![]);
    apply_update(&ov(vec![("$set", ov(vec![("a.b.c", nv(7))]))]), &mut d).unwrap();
    let a = d.get("a").unwrap();
    let b = a.get("b").unwrap();
    assert_eq!(b.get("c").unwrap(), &nv(7));
}

#[test]
fn equal_arrays_match_any_comparison_operator() {
    let d = ov(vec![("tags", av(vec![sv("A"), sv("B")]))]);
    let q = ov(vec![("tags", ov(vec![("$gt", av(vec![sv("A"), sv("B")]))]))]);
    assert_eq!(evaluate(&q, &d), Ok(true));
}

#[test]
fn empty_update_is_an_operator_no_op() {
    let mut d = ov(vec![("name", sv("Bob"))]);
    assert_eq!(apply_update(&ov(vec![]), &mut d), Ok(()));
    assert_eq!(d, ov(vec![("name", sv("Bob"))]));
}

#[test]
fn arithmetic_without_a_fitting_representation_is_a_type_error() {
    let mut d = ov(vec![("n", Value::Uint(u64::MAX))]);
    let r = apply_update(&ov(vec![("$inc", ov(vec![("n", nv(1))]))]), &mut d);
    assert_eq!(r, Err(Error::InvalidType));
    assert_eq!(d, ov(vec![("n", Value::Uint(u64::MAX))]));
    let mut d2 = ov(vec![("n", Value::Uint(u64::MAX))]);
    let r2 = apply_update(&ov(vec![("$inc", ov(vec![("n", nv(-1))]))]), &mut d2);
    assert_eq!(r2, Err(Error::InvalidType));
}

#[test]
fn large_unsigned_values_compare_unsigned() {
    let d = ov(vec![("n", Value::Uint(u64::MAX))]);
    let q = ov(vec![("n", ov(vec![("$gt", Value::Uint(u64::MAX - 1))]))]);
    assert_eq!(evaluate(&q, &d), Ok(true));
    let q2 = ov(vec![("n", ov(vec![("$gt", nv(-1))]))]);
    assert_eq!(evaluate(&q2, &d), Err(Error::InvalidType));
}

#[test]
fn duplicate_keys_resolve_to_the_first_binding() {
    let d = Value::Obj(vec![
        ("a".to_string(), nv(1)),
        ("a".to_string(), nv(2)),
    ]);
    assert_eq!(d.get("a"), Some(&nv(1)));
    let q = ov(vec![("a", nv(1))]);
    assert_eq!(evaluate(&q, &d), Ok(true));
}
