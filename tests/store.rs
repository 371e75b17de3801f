use bison::{Bison, DbError, QueryOperator, UpdateOperator, Value, QUERY_CACHE_SIZE};

fn s(t: &str) -> Value {
    Value::String(t.to_string())
}

fn n(x: i64) -> Value {
    Value::Number(x)
}

fn obj(pairs: Vec<(&str, Value)>) -> Value {
    Value::Object(pairs.into_iter().map(|(k, v)| (k.to_string(), v)).collect())
}

fn show(v: &[Value]) -> String {
    format!("{:?}", v)
}

fn user(name: &str, age: i64) -> Value {
    obj(vec![("name", s(name)), ("age", n(age))])
}

fn users_store() -> Bison {
    let mut db = Bison::new();
    db.insert("users", user("a", 25));
    db.insert("users", user("b", 31));
    db.insert("users", user("c", 40));
    db
}

#[test]
fn scenario_users() {
    let mut db = users_store();
    let found = db
        .find("users", Some(&obj(vec![("age", obj(vec![("$gt", n(30))]))])))
        .unwrap();
    assert_eq!(show(&found), show(&[user("b", 31), user("c", 40)]));

    let r = db
        .update(
            "users",
            &obj(vec![("age", obj(vec![("$inc", Value::Null)]))]),
            Some(&obj(vec![("age", obj(vec![("$eq", n(31))]))])),
            true,
        )
        .unwrap()
        .unwrap();
    assert_eq!(show(&r), show(&[user("a", 25), user("b", 32), user("c", 40)]));

    db.drop_all();
    assert!(matches!(db.find("users", None), Err(DbError::NotFound(_))));
}

#[test]
fn find_without_filter_keeps_insertion_order() {
    let mut db = Bison::new();
    db.insert_many("c", vec![user("x", 1), user("y", 2)]);
    db.insert("c", user("z", 3));
    let all = db.find("c", None).unwrap();
    assert_eq!(show(&all), show(&[user("x", 1), user("y", 2), user("z", 3)]));
}

#[test]
fn literal_filter_equals_eq_filter() {
    let mut db = users_store();
    let a = db.find("users", Some(&obj(vec![("name", s("b"))]))).unwrap();
    let b = db
        .find("users", Some(&obj(vec![("name", obj(vec![("$eq", s("b"))]))])))
        .unwrap();
    assert_eq!(show(&a), show(&b));
    assert_eq!(show(&a), show(&[user("b", 31)]));
}

#[test]
fn missing_field_never_matches_even_ne() {
    let mut db = Bison::new();
    db.insert("c", obj(vec![("name", s("a"))]));
    db.insert("c", obj(vec![("name", s("b")), ("tag", s("x"))]));
    let ne = db
        .find("c", Some(&obj(vec![("tag", obj(vec![("$ne", s("y"))]))])))
        .unwrap();
    assert_eq!(show(&ne), show(&[obj(vec![("name", s("b")), ("tag", s("x"))])]));
    let gt = db
        .find("c", Some(&obj(vec![("tag", obj(vec![("$gt", n(0))]))])))
        .unwrap();
    assert_eq!(gt.len(), 0);
}

#[test]
fn increment_twice_adds_two() {
    let mut db = users_store();
    let inc = obj(vec![("age", obj(vec![("$inc", Value::Null)]))]);
    let filter = obj(vec![("name", s("a"))]);
    db.update("users", &inc, Some(&filter), false).unwrap();
    db.update("users", &inc, Some(&filter), false).unwrap();
    let all = db.find("users", None).unwrap();
    assert_eq!(show(&all), show(&[user("a", 27), user("b", 31), user("c", 40)]));
}

#[test]
fn delete_removes_key_and_eq_no_longer_matches() {
    let mut db = users_store();
    let del = obj(vec![("age", obj(vec![("$delete", Value::Null)]))]);
    assert!(db.update("users", &del, None, false).unwrap().is_none());
    let all = db.find("users", None).unwrap();
    assert_eq!(
        show(&all),
        show(&[
            obj(vec![("name", s("a"))]),
            obj(vec![("name", s("b"))]),
            obj(vec![("name", s("c"))]),
        ])
    );
    let eq = db
        .find("users", Some(&obj(vec![("age", obj(vec![("$eq", n(31))]))])))
        .unwrap();
    assert_eq!(eq.len(), 0);
}

#[test]
fn cache_is_coherent_across_updates() {
    let mut db = users_store();
    let q = obj(vec![("age", obj(vec![("$gte", n(31))]))]);
    let first = db.find("users", Some(&q)).unwrap();
    let second = db.find("users", Some(&q)).unwrap();
    assert_eq!(show(&first), show(&second));
    db.update(
        "users",
        &obj(vec![("age", obj(vec![("$dec", Value::Null)]))]),
        Some(&obj(vec![("name", s("b"))])),
        false,
    )
    .unwrap();
    let third = db.find("users", Some(&q)).unwrap();
    assert_eq!(show(&third), show(&[user("c", 40)]));
}

#[test]
fn cache_is_scoped_to_its_collection() {
    let mut db = users_store();
    db.insert("others", user("z", 50));
    let q = obj(vec![("age", obj(vec![("$gt", n(30))]))]);
    let u = db.find("users", Some(&q)).unwrap();
    let o = db.find("others", Some(&q)).unwrap();
    assert_eq!(u.len(), 2);
    assert_eq!(show(&o), show(&[user("z", 50)]));
}

#[test]
fn insert_invalidates_cached_results() {
    let mut db = users_store();
    let q = obj(vec![("age", obj(vec![("$lt", n(30))]))]);
    assert_eq!(db.find("users", Some(&q)).unwrap().len(), 1);
    db.insert("users", user("d", 10));
    assert_eq!(db.find("users", Some(&q)).unwrap().len(), 2);
}

#[test]
fn many_distinct_filters_stay_correct() {
    let mut db = Bison::new();
    for i in 0..10 {
        db.insert("c", obj(vec![("k", n(i))]));
    }
    for round in 0..2 {
        for i in 0..(QUERY_CACHE_SIZE as i64 + 20) {
            let got = db
                .find("c", Some(&obj(vec![("k", obj(vec![("$lte", n(i % 10))]))])))
                .unwrap();
            assert_eq!(got.len() as i64, i % 10 + 1, "round {}", round);
            let got = db.find("c", Some(&obj(vec![("k", n(i))]))).unwrap();
            assert_eq!(got.len(), if i < 10 { 1 } else { 0 });
        }
    }
}

#[test]
fn drop_collection_then_find_is_not_found() {
    let mut db = users_store();
    assert!(db.contains("users"));
    db.drop_collection("users");
    assert!(!db.contains("users"));
    assert!(matches!(db.find("users", None), Err(DbError::NotFound(_))));
    assert!(matches!(
        db.find("users", Some(&obj(vec![("a", n(1))]))),
        Err(DbError::NotFound(_))
    ));
}

#[test]
fn written_documents_read_back_identically() {
    let db = users_store();
    let docs = db.documents("users").unwrap();
    let read = Bison::collection_documents(Value::Array(docs)).unwrap();
    let mut fresh = Bison::new();
    fresh.load_collection("users", read);
    let all = fresh.find("users", None).unwrap();
    assert_eq!(show(&all), show(&[user("a", 25), user("b", 31), user("c", 40)]));
}

#[test]
fn unknown_operator_is_reported_with_its_token() {
    let mut db = users_store();
    match db.find("users", Some(&obj(vec![("age", obj(vec![("$foo", n(1))]))]))) {
        Err(DbError::UnknownOperator(t)) => assert_eq!(t, "$foo"),
        other => panic!("unexpected {:?}", other),
    }
    match db.update("users", &obj(vec![("age", obj(vec![("$gt", n(1))]))]), None, false) {
        Err(DbError::UnknownOperator(t)) => assert_eq!(t, "$gt"),
        other => panic!("unexpected {:?}", other),
    }
    let all = db.find("users", None).unwrap();
    assert_eq!(show(&all), show(&[user("a", 25), user("b", 31), user("c", 40)]));
}

#[test]
fn malformed_specifications_are_shape_errors() {
    let mut db = users_store();
    assert!(matches!(db.find("users", Some(&n(3))), Err(DbError::Shape(_))));
    assert!(matches!(
        db.find("users", Some(&obj(vec![("age", obj(vec![]))]))),
        Err(DbError::Shape(_))
    ));
    assert!(matches!(
        db.find("users", Some(&obj(vec![("$eq", n(1))]))),
        Err(DbError::Shape(_))
    ));
    assert!(matches!(db.update("users", &s("x"), None, false), Err(DbError::Shape(_))));
    assert!(matches!(
        db.update("users", &obj(vec![("age", n(1))]), Some(&Value::Null), false),
        Err(DbError::Shape(_))
    ));
    assert!(matches!(
        db.update("nope", &obj(vec![("age", n(1))]), None, false),
        Err(DbError::NotFound(_))
    ));
}

#[test]
fn empty_filter_matches_every_document() {
    let mut db = users_store();
    assert_eq!(db.find("users", Some(&obj(vec![]))).unwrap().len(), 3);
}

#[test]
fn operators_fan_out_over_sibling_keys() {
    let mut db = users_store();
    let q = obj(vec![("age", obj(vec![("$gt", n(25)), ("$lt", n(40))]))]);
    let got = db.find("users", Some(&q)).unwrap();
    assert_eq!(show(&got), show(&[user("b", 31)]));
    let q2 = obj(vec![("name", s("c")), ("age", n(40))]);
    assert_eq!(db.find("users", Some(&q2)).unwrap().len(), 1);
}

#[test]
fn nested_paths_and_wholesale_set() {
    let mut db = Bison::new();
    db.insert("c", obj(vec![("a", obj(vec![("b", n(1)), ("x", s("k"))]))]));
    let got = db.find("c", Some(&obj(vec![("a", obj(vec![("b", n(1))]))]))).unwrap();
    assert_eq!(got.len(), 1);
    db.update("c", &obj(vec![("a", obj(vec![("b", obj(vec![("$add", n(4))]))]))]), None, false)
        .unwrap();
    let all = db.find("c", None).unwrap();
    assert_eq!(show(&all), show(&[obj(vec![("a", obj(vec![("b", n(5)), ("x", s("k"))]))])]));
    db.update(
        "c",
        &obj(vec![("a", obj(vec![("$set", obj(vec![("z", Value::Bool(true))]))]))]),
        None,
        false,
    )
    .unwrap();
    let all = db.find("c", None).unwrap();
    assert_eq!(show(&all), show(&[obj(vec![("a", obj(vec![("z", Value::Bool(true))]))])]));
}

#[test]
fn arithmetic_operators_and_their_limits() {
    let mut db = Bison::new();
    db.insert("c", obj(vec![("v", n(10)), ("t", s("x")), ("m", n(i64::MAX))]));
    db.update("c", &obj(vec![("v", obj(vec![("$substract", n(3))]))]), None, false).unwrap();
    db.update("c", &obj(vec![("t", obj(vec![("$inc", Value::Null)]))]), None, false).unwrap();
    db.update("c", &obj(vec![("m", obj(vec![("$inc", Value::Null)]))]), None, false).unwrap();
    db.update("c", &obj(vec![("missing", n(1))]), None, false).unwrap();
    let all = db.find("c", None).unwrap();
    assert_eq!(show(&all), show(&[obj(vec![("v", n(7)), ("t", s("x")), ("m", n(i64::MAX))])]));
}

#[test]
fn equality_ignores_key_order_of_objects() {
    let mut db = Bison::new();
    db.insert("c", obj(vec![("o", obj(vec![("x", n(1)), ("y", n(2))]))]));
    let q = obj(vec![("o", obj(vec![("$eq", obj(vec![("y", n(2)), ("x", n(1))]))]))]);
    assert_eq!(db.find("c", Some(&q)).unwrap().len(), 1);
    let q = obj(vec![("o", obj(vec![("$eq", obj(vec![("y", n(2))]))]))]);
    assert_eq!(db.find("c", Some(&q)).unwrap().len(), 0);
    let q = obj(vec![("o", obj(vec![("$eq", n(1))]))]);
    assert_eq!(db.find("c", Some(&q)).unwrap().len(), 0);
}

#[test]
fn number_never_equals_string() {
    let mut db = Bison::new();
    db.insert("c", obj(vec![("v", s("1"))]));
    assert_eq!(db.find("c", Some(&obj(vec![("v", n(1))]))).unwrap().len(), 0);
    assert_eq!(db.find("c", Some(&obj(vec![("v", obj(vec![("$gte", n(0))]))]))).unwrap().len(), 0);
}

#[test]
fn inserting_an_array_splices_its_items() {
    let mut db = Bison::new();
    db.insert("c", Value::Array(vec![user("a", 1), user("b", 2)]));
    assert_eq!(db.find("c", None).unwrap().len(), 2);
    db.insert_many_from_document("c", Value::Array(vec![user("c", 3)])).unwrap();
    assert_eq!(db.find("c", None).unwrap().len(), 3);
    assert!(matches!(db.insert_many_from_document("c", user("d", 4)), Err(DbError::Shape(_))));
    assert_eq!(db.find("c", None).unwrap().len(), 3);
}

#[test]
fn create_collection_is_idempotent() {
    let mut db = users_store();
    db.create_collection("users");
    assert_eq!(db.find("users", None).unwrap().len(), 3);
    db.create_collection("empty");
    assert_eq!(db.find("empty", None).unwrap().len(), 0);
    let mut names: Vec<String> = db.collection_names();
    names.sort();
    assert_eq!(names, vec!["empty".to_string(), "users".to_string()]);
}

#[test]
fn import_document_fills_collections() {
    let mut db = Bison::new();
    let doc = obj(vec![
        ("a", Value::Array(vec![user("x", 1), user("y", 2)])),
        ("b", user("z", 3)),
    ]);
    db.load_from_document(doc).unwrap();
    assert_eq!(db.find("a", None).unwrap().len(), 2);
    assert_eq!(show(&db.find("b", None).unwrap()), show(&[user("z", 3)]));
    assert!(matches!(db.load_from_document(n(1)), Err(DbError::Shape(_))));
}

#[test]
fn extract_collection_reads_named_array() {
    let doc = obj(vec![("users", Value::Array(vec![user("a", 1)])), ("n", n(2))]);
    let docs = Bison::extract_collection(doc, "users".to_string()).unwrap();
    assert_eq!(show(&docs), show(&[user("a", 1)]));
    let doc = obj(vec![("n", n(2))]);
    assert!(matches!(Bison::extract_collection(doc, "n".to_string()), Err(DbError::Shape(_))));
    let doc = obj(vec![("n", n(2))]);
    assert!(matches!(Bison::extract_collection(doc, "users".to_string()), Err(DbError::Shape(_))));
    assert!(matches!(Bison::extract_collection(n(1), "users".to_string()), Err(DbError::Shape(_))));
    assert!(matches!(Bison::collection_documents(n(1)), Err(DbError::Shape(_))));
}

#[test]
fn documents_of_missing_collection_is_not_found() {
    let db = Bison::new();
    assert!(matches!(db.documents("x"), Err(DbError::NotFound(_))));
}

#[test]
fn operator_tokens_parse() {
    assert_eq!(QueryOperator::from_str("$gte"), Some(QueryOperator::GreaterThanEqual));
    assert_eq!(QueryOperator::from_str("$ne"), Some(QueryOperator::NotEqual));
    assert_eq!(QueryOperator::from_str("$set"), None);
    assert_eq!(UpdateOperator::from_str("$substract"), Some(UpdateOperator::Substract));
    assert_eq!(UpdateOperator::from_str("$set"), Some(UpdateOperator::SetValue));
    assert_eq!(UpdateOperator::from_str("$eq"), None);
}

#[test]
fn clear_cache_keeps_documents() {
    let mut db = users_store();
    let q = obj(vec![("name", s("a"))]);
    assert_eq!(db.find("users", Some(&q)).unwrap().len(), 1);
    db.clear_cache();
    assert_eq!(db.find("users", Some(&q)).unwrap().len(), 1);
}
