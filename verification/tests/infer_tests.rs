use jsl_infer::export::SchemaForm;
use jsl_infer::hints::InferHints;
use jsl_infer::shape::InferredSchema;
use jsl_infer::value::Json;

fn s(x: &str) -> String {
    x.to_string()
}

fn obj(entries: Vec<(&str, Json)>) -> Json {
    Json::Object(entries.into_iter().map(|(k, v)| (s(k), v)).collect())
}

fn infer_all(values: Vec<Json>, hints: Option<&InferHints>) -> InferredSchema {
    let mut shape = InferredSchema::Unknown;
    for v in &values {
        shape = shape.infer(v, hints);
    }
    shape
}

fn expect_properties(f: SchemaForm) -> (Vec<(String, SchemaForm)>, Vec<(String, SchemaForm)>, bool) {
    match f {
        SchemaForm::Properties(req, opt, has_req) => (req, opt, has_req),
        other => panic!("expected a properties form, got {:?}", other),
    }
}

fn get<'a>(entries: &'a [(String, SchemaForm)], k: &str) -> &'a SchemaForm {
    for (key, v) in entries {
        if key == k {
            return v;
        }
    }
    panic!("key {} not found", k);
}

fn forms_equal(a: &SchemaForm, b: &SchemaForm) -> bool {
    match (a, b) {
        (SchemaForm::Empty, SchemaForm::Empty) => true,
        (SchemaForm::Boolean, SchemaForm::Boolean) => true,
        (SchemaForm::Number, SchemaForm::Number) => true,
        (SchemaForm::Str, SchemaForm::Str) => true,
        (SchemaForm::Timestamp, SchemaForm::Timestamp) => true,
        (SchemaForm::Elements(x), SchemaForm::Elements(y)) => forms_equal(x, y),
        (SchemaForm::Properties(r1, o1, h1), SchemaForm::Properties(r2, o2, h2)) => {
            h1 == h2 && entries_equal(r1, r2) && entries_equal(o1, o2)
        }
        (SchemaForm::Values(x), SchemaForm::Values(y)) => forms_equal(x, y),
        (SchemaForm::Discriminator(t1, m1), SchemaForm::Discriminator(t2, m2)) => {
            t1 == t2 && entries_equal(m1, m2)
        }
        _ => false,
    }
}

fn entries_equal(a: &[(String, SchemaForm)], b: &[(String, SchemaForm)]) -> bool {
    a.len() == b.len()
        && a.iter()
            .zip(b.iter())
            .all(|((k1, v1), (k2, v2))| k1 == k2 && forms_equal(v1, v2))
}

#[test]
fn two_records_same_key() {
    let shape = infer_all(
        vec![obj(vec![("a", Json::Number)]), obj(vec![("a", Json::Number)])],
        None,
    );
    let (req, opt, has_req) = expect_properties(shape.into_schema());
    assert!(has_req);
    assert_eq!(req.len(), 1);
    assert!(matches!(get(&req, "a"), SchemaForm::Number));
    assert_eq!(opt.len(), 0);
}

#[test]
fn two_records_different_keys() {
    let shape = infer_all(
        vec![obj(vec![("a", Json::Number)]), obj(vec![("b", Json::Number)])],
        None,
    );
    let (req, opt, has_req) = expect_properties(shape.into_schema());
    assert!(!has_req);
    assert_eq!(req.len(), 0);
    assert_eq!(opt.len(), 2);
    assert!(matches!(get(&opt, "a"), SchemaForm::Number));
    assert!(matches!(get(&opt, "b"), SchemaForm::Number));
}

#[test]
fn timestamp_then_plain_string() {
    let shape = infer_all(
        vec![Json::Str(s("2020-01-01T00:00:00Z")), Json::Str(s("hello"))],
        None,
    );
    assert!(matches!(shape, InferredSchema::Str));
    assert!(matches!(shape.into_schema(), SchemaForm::Str));
}

#[test]
fn timestamp_alone_is_classified() {
    let shape = infer_all(vec![Json::Str(s("2020-01-01T00:00:00Z"))], None);
    assert!(matches!(shape, InferredSchema::Timestamp));
    let shape = infer_all(vec![Json::Str(s("not a date"))], None);
    assert!(matches!(shape, InferredSchema::Str));
}

#[test]
fn mixed_list_generalizes_to_any() {
    let shape = infer_all(
        vec![Json::Array(vec![Json::Number, Json::Number, Json::Str(s("x"))])],
        None,
    );
    match shape.into_schema() {
        SchemaForm::Elements(sub) => assert!(matches!(*sub, SchemaForm::Empty)),
        other => panic!("expected an elements form, got {:?}", other),
    }
}

#[test]
fn discriminator_hint_two_variants() {
    let mut hints = InferHints::new();
    hints.add_discriminator_hint(&[], s("type"));
    let shape = infer_all(
        vec![
            obj(vec![("type", Json::Str(s("a"))), ("x", Json::Number)]),
            obj(vec![("type", Json::Str(s("b"))), ("y", Json::Number)]),
        ],
        Some(&hints),
    );
    match shape.into_schema() {
        SchemaForm::Discriminator(tag, mapping) => {
            assert_eq!(tag, "type");
            assert_eq!(mapping.len(), 2);
            let (req_a, _, _) = match get(&mapping, "a") {
                SchemaForm::Properties(r, o, h) => (r.clone(), o.clone(), *h),
                other => panic!("variant a: expected properties, got {:?}", other),
            };
            assert!(matches!(get(&req_a, "x"), SchemaForm::Number));
            let (req_b, _, _) = match get(&mapping, "b") {
                SchemaForm::Properties(r, o, h) => (r.clone(), o.clone(), *h),
                other => panic!("variant b: expected properties, got {:?}", other),
            };
            assert!(matches!(get(&req_b, "y"), SchemaForm::Number));
        }
        other => panic!("expected a discriminator form, got {:?}", other),
    }
}

#[test]
fn values_hint_homogeneous_map() {
    let mut hints = InferHints::new();
    hints.add_values_hint(&[s("m")]);
    let shape = infer_all(
        vec![obj(vec![(
            "m",
            obj(vec![("k1", Json::Number), ("k2", Json::Number)]),
        )])],
        Some(&hints),
    );
    let (req, _, _) = expect_properties(shape.into_schema());
    match get(&req, "m") {
        SchemaForm::Values(sub) => assert!(matches!(**sub, SchemaForm::Number)),
        other => panic!("expected a values form under m, got {:?}", other),
    }
}

#[test]
fn absorption_scenario() {
    let mut shape = InferredSchema::Any;
    for v in [
        Json::Null,
        Json::Bool(true),
        Json::Number,
        Json::Str(s("x")),
        Json::Array(vec![]),
        obj(vec![("a", Json::Number)]),
    ] {
        shape = shape.infer(&v, None);
        assert!(matches!(shape, InferredSchema::Any));
    }
}

#[test]
fn scalar_idempotence_scenario() {
    let b = Json::Bool(true);
    let once = InferredSchema::Unknown.infer(&b, None);
    assert!(matches!(once, InferredSchema::Bool));
    let twice = once.infer(&b, None);
    assert!(matches!(twice, InferredSchema::Bool));
    let t = Json::Str(s("2020-01-01T00:00:00Z"));
    let once = InferredSchema::Unknown.infer(&t, None);
    assert!(matches!(once, InferredSchema::Timestamp));
    let twice = once.infer(&t, None);
    assert!(matches!(twice, InferredSchema::Timestamp));
}

#[test]
fn timestamp_demotion_is_one_way() {
    let shape = infer_all(
        vec![
            Json::Str(s("2020-01-01T00:00:00Z")),
            Json::Str(s("hello")),
            Json::Str(s("2021-06-30T12:00:00Z")),
        ],
        None,
    );
    assert!(matches!(shape, InferredSchema::Str));
}

#[test]
fn null_reaches_the_top() {
    let shape = infer_all(vec![Json::Null], None);
    assert!(matches!(shape, InferredSchema::Any));
}

#[test]
fn required_key_demotes_to_optional() {
    let shape = infer_all(
        vec![
            obj(vec![("a", Json::Number), ("b", Json::Number)]),
            obj(vec![("a", Json::Number)]),
        ],
        None,
    );
    let (req, opt, has_req) = expect_properties(shape.into_schema());
    assert!(has_req);
    assert_eq!(req.len(), 1);
    assert!(matches!(get(&req, "a"), SchemaForm::Number));
    assert_eq!(opt.len(), 1);
    assert!(matches!(get(&opt, "b"), SchemaForm::Number));
}

#[test]
fn falsified_discriminator_collapses() {
    let mut hints = InferHints::new();
    hints.add_discriminator_hint(&[], s("type"));
    let shape = infer_all(
        vec![
            obj(vec![("type", Json::Str(s("a"))), ("x", Json::Number)]),
            obj(vec![("x", Json::Number)]),
        ],
        Some(&hints),
    );
    assert!(matches!(shape, InferredSchema::Any));
}

#[test]
fn empty_stream_exports_empty() {
    assert!(matches!(
        InferredSchema::Unknown.into_schema(),
        SchemaForm::Empty
    ));
}

#[test]
fn round_trip_stability() {
    let first = infer_all(
        vec![obj(vec![("a", Json::Number)]), obj(vec![("a", Json::Number)])],
        None,
    )
    .into_schema();
    let again = infer_all(vec![obj(vec![("a", Json::Number)])], None).into_schema();
    assert!(forms_equal(&first, &again));
    let ts_first = infer_all(vec![Json::Str(s("2020-01-01T00:00:00Z"))], None).into_schema();
    let ts_again = infer_all(vec![Json::Str(s("1996-12-19T16:39:57-08:00"))], None).into_schema();
    assert!(forms_equal(&ts_first, &ts_again));
}

#[test]
fn wildcard_hint_reaches_list_elements() {
    let mut hints = InferHints::new();
    hints.add_values_hint(&[s("-"), s("m")]);
    let shape = infer_all(
        vec![Json::Array(vec![obj(vec![(
            "m",
            obj(vec![("k", Json::Number)]),
        )])])],
        Some(&hints),
    );
    match shape.into_schema() {
        SchemaForm::Elements(sub) => {
            let (req, _, _) = expect_properties(*sub);
            match get(&req, "m") {
                SchemaForm::Values(inner) => assert!(matches!(**inner, SchemaForm::Number)),
                other => panic!("expected a values form under m, got {:?}", other),
            }
        }
        other => panic!("expected an elements form, got {:?}", other),
    }
}

#[test]
fn hint_builder_nests_paths() {
    let mut hints = InferHints::new();
    hints.add_values_hint(&[s("outer"), s("inner")]);
    hints.add_discriminator_hint(&[s("outer")], s("kind"));
    assert!(!hints.values);
    assert_eq!(hints.children.len(), 1);
    let outer = &hints.children[0];
    assert_eq!(outer.0, "outer");
    assert_eq!(outer.1.discriminator_tag.as_deref(), Some("kind"));
    assert_eq!(outer.1.children.len(), 1);
    let inner = &outer.1.children[0];
    assert_eq!(inner.0, "inner");
    assert!(inner.1.values);
}

#[test]
fn values_merge_pools_all_entries() {
    let mut hints = InferHints::new();
    hints.add_values_hint(&[]);
    let shape = infer_all(
        vec![obj(vec![("k1", Json::Number), ("k2", Json::Str(s("x")))])],
        Some(&hints),
    );
    match shape.into_schema() {
        SchemaForm::Values(sub) => assert!(matches!(*sub, SchemaForm::Empty)),
        other => panic!("expected a values form, got {:?}", other),
    }
}
