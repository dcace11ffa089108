#![allow(dead_code)]

use memquery::collection::Collection;
use memquery::value::Value;

fn sv(x: &str) -> Value {
    Value::text(x)
}

fn nv(x: i64) -> Value {
    Value::num(x)
}

fn av(items: Vec<Value>) -> Value {
    Value::Arr(items)
}

fn ov(pairs: Vec<(&str, Value)>) -> Value {
    let mut fields: Vec<(String, Value)> = Vec::new();
    for (k, v) in pairs {
        fields.push((k.to_string(), v));
    }
    Value::Obj(fields)
}

fn field<'a>(doc: &'a Value, key: &str) -> &'a Value {
    doc.get(key).unwrap()
}

fn num_of(doc: &Value, key: &str) -> i64 {
    field(doc, key).as_i64().unwrap()
}

fn people_collection() -> Collection {
    let mut coll = Collection::new();
    coll.insert(ov(vec![("name", sv("Rob")), ("age", nv(25))])).unwrap();
    coll.insert(ov(vec![("name", sv("Bob")), ("age", nv(20))])).unwrap();
    coll.insert(ov(vec![("name", sv("Tom")), ("age", nv(30))])).unwrap();
    coll
}

fn item_collection() -> Collection {
    let mut coll = Collection::new();
    coll.insert(ov(vec![
        ("item", ov(vec![("name", sv("ab")), ("code", sv("123"))])),
        ("qty", nv(15)),
        ("tags", av(vec![sv("A"), sv("B"), sv("C")])),
    ])).unwrap();
    coll.insert(ov(vec![
        ("item", ov(vec![("name", sv("cd")), ("code", sv("123"))])),
        ("qty", nv(20)),
        ("tags", av(vec![sv("B")])),
    ])).unwrap();
    coll.insert(ov(vec![
        ("item", ov(vec![("name", sv("ij")), ("code", sv("456"))])),
        ("qty", nv(25)),
        ("tags", av(vec![sv("A"), sv("B")])),
    ])).unwrap();
    coll.insert(ov(vec![
        ("item", ov(vec![("name", sv("xy")), ("code", sv("456"))])),
        ("qty", nv(30)),
        ("tags", av(vec![sv("B"), sv("A")])),
    ])).unwrap();
    coll.insert(ov(vec![
        ("item", ov(vec![("name", sv("mn")), ("code", sv("000"))])),
        ("qty", nv(20)),
        ("tags", av(vec![av(vec![sv("A"), sv("B")]), sv("C")])),
    ])).unwrap();
    coll
}

fn item_collection_numeric_codes() -> Collection {
    let mut coll = Collection::new();
    coll.insert(ov(vec![
        ("item", ov(vec![("name", sv("ab")), ("code", nv(123))])),
        ("qty", nv(15)),
        ("tags", av(vec![sv("A"), sv("B"), sv("C")])),
    ])).unwrap();
    coll.insert(ov(vec![
        ("item", ov(vec![("name", sv("cd")), ("code", nv(123))])),
        ("qty", nv(20)),
        ("tags", av(vec![sv("B")])),
    ])).unwrap();
    coll.insert(ov(vec![
        ("item", ov(vec![("name", sv("ij")), ("code", nv(456))])),
        ("qty", nv(25)),
        ("tags", av(vec![sv("A"), sv("B")])),
    ])).unwrap();
    coll.insert(ov(vec![
        ("item", ov(vec![("name", sv("xy")), ("code", nv(456))])),
        ("qty", nv(30)),
        ("tags", av(vec![sv("B"), sv("A")])),
    ])).unwrap();
    coll.insert(ov(vec![
        ("item", ov(vec![("name", sv("mn")), ("code", nv(0))])),
        ("qty", nv(20)),
        ("tags", av(vec![av(vec![sv("A"), sv("B")]), sv("C")])),
    ])).unwrap();
    coll
}

fn item_name(doc: &Value) -> &Value {
    field(field(doc, "item"), "name")
}

#[test]
fn sync_find_and_update_tests_simple_update() {
    let mut coll = people_collection();
    let n = coll.find_and_update(
        &ov(vec![("name", sv("Bob"))]),
        &ov(vec![("nickname", sv("Bobcat")), ("voice", sv("meow"))]),
    ).unwrap();
    assert_eq!(n, 1);
    let docs = coll.find(&ov(vec![("nickname", sv("Bobcat"))])).unwrap();
    assert_eq!(docs.len(), 1);
    assert_eq!(field(&docs[0], "voice"), &sv("meow"));
}

#[test]
fn sync_find_and_update_tests_set_op_update() {
    let mut coll = people_collection();
    let n = coll.find_and_update(
        &ov(vec![("name", sv("Bob"))]),
        &ov(vec![("$set", ov(vec![
            ("name", sv("Roy")),
            ("age", nv(21)),
            ("email", sv("test@test.com")),
        ]))]),
    ).unwrap();
    assert_eq!(n, 1);
    let docs = coll.find(&ov(vec![("name", sv("Roy"))])).unwrap();
    assert_eq!(docs.len(), 1);
    assert_eq!(num_of(&docs[0], "age"), 21);
    assert_eq!(field(&docs[0], "email"), &sv("test@test.com"));
}

#[test]
fn sync_find_and_update_tests_unset_op_update() {
    let mut coll = people_collection();
    let n = coll.find_and_update(
        &ov(vec![("name", sv("Bob"))]),
        &ov(vec![("$set", ov(vec![
            ("name", sv("Roy")),
            ("age", nv(21)),
            ("email", sv("test@test.com")),
        ]))]),
    ).unwrap();
    assert_eq!(n, 1);
    let docs = coll.find(&ov(vec![("name", sv("Roy"))])).unwrap();
    assert_eq!(docs.len(), 1);
    assert_eq!(num_of(&docs[0], "age"), 21);
    assert_eq!(field(&docs[0], "email"), &sv("test@test.com"));
    let n2 = coll.find_and_update(
        &ov(vec![("name", sv("Roy"))]),
        &ov(vec![("$unset", ov(vec![("email", sv(""))]))]),
    ).unwrap();
    assert_eq!(n2, 1);
    let docs = coll.find(&ov(vec![("name", sv("Roy"))])).unwrap();
    assert_eq!(docs.len(), 1);
    assert_eq!(num_of(&docs[0], "age"), 21);
    assert_eq!(docs[0].get("email"), None);
}

#[test]
fn sync_find_and_update_tests_set_op_on_embedded_doc_update() {
    let mut coll = Collection::new();
    coll.insert(ov(vec![
        ("name", sv("Rob")), ("age", nv(25)),
        ("profile", ov(vec![("email", sv("rob@test.com"))])),
    ])).unwrap();
    coll.insert(ov(vec![
        ("name", sv("Bob")), ("age", nv(20)),
        ("profile", ov(vec![("email", sv("bob@test.com"))])),
    ])).unwrap();
    coll.insert(ov(vec![
        ("name", sv("Tom")), ("age", nv(30)),
        ("profile", ov(vec![("email", sv("tom@test.com"))])),
    ])).unwrap();
    let n = coll.find_and_update(
        &ov(vec![("name", sv("Bob"))]),
        &ov(vec![("$set", ov(vec![("profile.email", sv("tom@test.com"))]))]),
    ).unwrap();
    assert_eq!(n, 1);
    let docs = coll.find(&ov(vec![("name", sv("Bob"))])).unwrap();
    assert_eq!(docs.len(), 1);
    assert_eq!(num_of(&docs[0], "age"), 20);
    assert_eq!(field(field(&docs[0], "profile"), "email"), &sv("tom@test.com"));
}

#[test]
fn sync_find_and_update_tests_unset_op_on_embedded_doc_update() {
    let mut coll = Collection::new();
    coll.insert(ov(vec![
        ("name", sv("Rob")), ("age", nv(25)),
        ("profile", ov(vec![("email", sv("rob@test.com"))])),
    ])).unwrap();
    coll.insert(ov(vec![
        ("name", sv("Bob")), ("age", nv(20)),
        ("profile", ov(vec![("email", sv("bob@test.com"))])),
    ])).unwrap();
    coll.insert(ov(vec![
        ("name", sv("Tom")), ("age", nv(30)),
        ("profile", ov(vec![("email", sv("tom@test.com"))])),
    ])).unwrap();
    let n = coll.find_and_update(
        &ov(vec![("name", sv("Bob"))]),
        &ov(vec![("$set", ov(vec![("profile.email", sv("tom@test.com"))]))]),
    ).unwrap();
    assert_eq!(n, 1);
    let docs = coll.find(&ov(vec![("name", sv("Bob"))])).unwrap();
    assert_eq!(docs.len(), 1);
    assert_eq!(num_of(&docs[0], "age"), 20);
    assert_eq!(field(field(&docs[0], "profile"), "email"), &sv("tom@test.com"));
    let n2 = coll.find_and_update(
        &ov(vec![("name", sv("Bob"))]),
        &ov(vec![("$unset", ov(vec![("profile.email", sv("tom@test.com"))]))]),
    ).unwrap();
    assert_eq!(n2, 1);
    let docs = coll.find(&ov(vec![("name", sv("Bob"))])).unwrap();
    assert_eq!(field(&docs[0], "profile").get("email"), None);
}

#[test]
fn sync_find_and_update_tests_inc_positive_op_update() {
    let mut coll = people_collection();
    let n = coll.find_and_update(
        &ov(vec![("name", sv("Bob"))]),
        &ov(vec![("$inc", ov(vec![("age", nv(5))]))]),
    ).unwrap();
    assert_eq!(n, 1);
    let docs = coll.find(&ov(vec![("name", sv("Bob"))])).unwrap();
    assert_eq!(docs.len(), 1);
    assert_eq!(num_of(&docs[0], "age") as f64, 25.0);
}

#[test]
fn sync_find_and_update_tests_inc_negative_op_update() {
    let mut coll = people_collection();
    let n = coll.find_and_update(
        &ov(vec![("name", sv("Bob"))]),
        &ov(vec![("$inc", ov(vec![("age", nv(-5))]))]),
    ).unwrap();
    assert_eq!(n, 1);
    let docs = coll.find(&ov(vec![("name", sv("Bob"))])).unwrap();
    assert_eq!(docs.len(), 1);
    assert_eq!(num_of(&docs[0], "age") as f64, 15.0);
}

#[test]
fn sync_find_and_update_tests_mul_positive_op_update() {
    let mut coll = people_collection();
    let n = coll.find_and_update(
        &ov(vec![("name", sv("Bob"))]),
        &ov(vec![("$mul", ov(vec![("age", nv(5))]))]),
    ).unwrap();
    assert_eq!(n, 1);
    let docs = coll.find(&ov(vec![("name", sv("Bob"))])).unwrap();
    assert_eq!(docs.len(), 1);
    assert_eq!(num_of(&docs[0], "age") as f64, 100.0);
}

#[test]
fn sync_find_and_update_tests_mul_negative_op_update() {
    let mut coll = people_collection();
    let n = coll.find_and_update(
        &ov(vec![("name", sv("Bob"))]),
        &ov(vec![("$mul", ov(vec![("age", nv(-5))]))]),
    ).unwrap();
    assert_eq!(n, 1);
    let docs = coll.find(&ov(vec![("name", sv("Bob"))])).unwrap();
    assert_eq!(docs.len(), 1);
    assert_eq!(num_of(&docs[0], "age") as f64, -100.0);
}
