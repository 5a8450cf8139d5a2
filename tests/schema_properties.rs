use pollinate::default_values::{ArrayValues, DiscreteValues, ObjectValues, Producer, RangedValues, Values};
use pollinate::json::Json;
use pollinate::json_utils::{generate_documents, Output};
use pollinate::schema::{
    generate_template_from_schema, parse_array, parse_integer, parse_object, parse_string,
    parse_type, populate_schema, Keyword, SchemaError,
};

fn s(v: &str) -> Json {
    Json::Str(v.to_string())
}

fn o(members: Vec<(&str, Json)>) -> Json {
    Json::Obj(members.into_iter().map(|(k, v)| (k.to_string(), v)).collect())
}

fn a(items: Vec<Json>) -> Json {
    Json::Arr(items)
}

fn get<'a>(doc: &'a Json, key: &str) -> &'a Json {
    match doc {
        Json::Obj(members) => &members.iter().find(|m| m.0 == key).expect("member present").1,
        other => panic!("not an object: {:?}", other),
    }
}

fn keys(doc: &Json) -> Vec<String> {
    match doc {
        Json::Obj(members) => members.iter().map(|m| m.0.clone()).collect(),
        other => panic!("not an object: {:?}", other),
    }
}

fn compile_err(node: &Json) -> SchemaError {
    match parse_type(node) {
        Err(e) => e,
        Ok(p) => panic!("compiled: {:?}", p),
    }
}

#[test]
fn discrete_reaches_every_candidate() {
    let candidates = vec![s("a"), s("b"), s("c")];
    let p = DiscreteValues::new(&candidates);
    let mut seen = [false; 3];
    for _ in 0..2000 {
        let v = p.get_value();
        let k = candidates.iter().position(|c| *c == v).expect("a candidate");
        seen[k] = true;
    }
    assert!(seen.iter().all(|b| *b));
}

#[test]
fn discrete_single_candidate() {
    let p = DiscreteValues::new(&[Json::Int(7)]);
    for _ in 0..50 {
        assert_eq!(p.get_value(), Json::Int(7));
    }
}

#[test]
fn ranged_half_open_bounds() {
    let p = RangedValues::new(-2, 3);
    let mut seen = [false; 5];
    for _ in 0..2000 {
        match p.get_value() {
            Json::Int(n) => {
                assert!(-2 <= n && n < 3);
                seen[(n + 2) as usize] = true;
            }
            other => panic!("{:?}", other),
        }
    }
    assert!(seen.iter().all(|b| *b));
}

#[test]
fn ranged_width_one_gives_low() {
    let p = RangedValues::new(41, 42);
    for _ in 0..50 {
        assert_eq!(p.get_value(), Json::Int(41));
    }
}

#[test]
fn ranged_extreme_bounds() {
    let p = RangedValues::new(i64::MAX - 1, i64::MAX);
    assert_eq!(p.get_value(), Json::Int(i64::MAX - 1));
    let q = RangedValues::new(i64::MIN, i64::MIN + 1);
    assert_eq!(q.get_value(), Json::Int(i64::MIN));
}

#[test]
fn array_length_within_bounds() {
    let element = Producer::Discrete(DiscreteValues::new(&[s("P"), s("Q")]));
    let p = ArrayValues::new(1, 4, Box::new(element));
    let mut seen = [false; 5];
    for _ in 0..2000 {
        match p.get_value() {
            Json::Arr(xs) => {
                assert!(1 <= xs.len() && xs.len() <= 4);
                seen[xs.len()] = true;
                for x in &xs {
                    assert!(*x == s("P") || *x == s("Q"));
                }
            }
            other => panic!("{:?}", other),
        }
    }
    assert!(seen[1] && seen[2] && seen[3] && seen[4]);
}

#[test]
fn array_fixed_length() {
    let element = Producer::Ranged(RangedValues::new(0, 10));
    let p = ArrayValues::new(3, 3, Box::new(element));
    for _ in 0..100 {
        match p.get_value() {
            Json::Arr(xs) => assert_eq!(xs.len(), 3),
            other => panic!("{:?}", other),
        }
    }
    let empty = ArrayValues::new(0, 0, Box::new(Producer::Ranged(RangedValues::new(0, 1))));
    assert_eq!(empty.get_value(), Json::Arr(vec![]));
}

#[test]
fn array_of_given_length() {
    let element = Producer::Discrete(DiscreteValues::new(&[s("z")]));
    let p = ArrayValues::new(0, 2, Box::new(element));
    assert_eq!(p.sample_of_length(5), a(vec![s("z"), s("z"), s("z"), s("z"), s("z")]));
}

#[test]
fn object_has_exactly_its_fields() {
    let p = ObjectValues::new(vec![
        ("b".to_string(), Producer::Ranged(RangedValues::new(0, 5))),
        ("a".to_string(), Producer::Discrete(DiscreteValues::new(&[s("x")]))),
    ]);
    for _ in 0..100 {
        let d = p.get_value();
        assert_eq!(keys(&d), vec!["b".to_string(), "a".to_string()]);
        assert_eq!(get(&d, "a"), &s("x"));
    }
    let none = ObjectValues::new(vec![]);
    assert_eq!(none.get_value(), Json::Obj(vec![]));
}

#[test]
fn compile_twice_same_configuration() {
    let node = o(vec![
        ("type", s("object")),
        (
            "properties",
            o(vec![
                ("n", o(vec![("type", s("integer")), ("minimum", Json::Int(2)), ("maximum", Json::Int(9))])),
                ("tags", o(vec![
                    ("type", s("array")),
                    ("maximum", Json::Int(3)),
                    ("items", o(vec![("type", s("string")), ("enum", a(vec![s("u"), s("v")]))])),
                ])),
            ]),
        ),
    ]);
    let first = parse_type(&node).unwrap();
    let second = parse_type(&node).unwrap();
    assert_eq!(format!("{:?}", first), format!("{:?}", second));
}

#[test]
fn scenario_integer_range() {
    let schema = o(vec![(
        "properties",
        o(vec![("id", o(vec![("type", s("integer")), ("minimum", Json::Int(1)), ("maximum", Json::Int(3))]))]),
    )]);
    let template = generate_template_from_schema(&schema).unwrap();
    for _ in 0..200 {
        match generate_documents(&template, 1) {
            Output::Single(d) => {
                assert_eq!(keys(&d), vec!["id".to_string()]);
                let id = get(&d, "id");
                assert!(*id == Json::Int(1) || *id == Json::Int(2));
            }
            Output::Many(_) => panic!("expected one document"),
        }
    }
}

#[test]
fn scenario_string_enum_five_documents() {
    let schema = o(vec![(
        "properties",
        o(vec![("letter", o(vec![("type", s("string")), ("enum", a(vec![s("x"), s("y")]))]))]),
    )]);
    let template = generate_template_from_schema(&schema).unwrap();
    match generate_documents(&template, 5) {
        Output::Many(docs) => {
            assert_eq!(docs.len(), 5);
            for d in &docs {
                assert!(*d == o(vec![("letter", s("x"))]) || *d == o(vec![("letter", s("y"))]));
            }
        }
        Output::Single(_) => panic!("expected five documents"),
    }
}

#[test]
fn scenario_nested_object() {
    let schema = o(vec![(
        "properties",
        o(vec![(
            "address",
            o(vec![
                ("type", s("object")),
                ("properties", o(vec![("zip", o(vec![("type", s("integer")), ("enum", a(vec![Json::Int(10), Json::Int(20)]))]))])),
            ]),
        )]),
    )]);
    let template = generate_template_from_schema(&schema).unwrap();
    for _ in 0..100 {
        match generate_documents(&template, 1) {
            Output::Single(d) => assert!(
                d == o(vec![("address", o(vec![("zip", Json::Int(10))]))])
                    || d == o(vec![("address", o(vec![("zip", Json::Int(20))]))])
            ),
            Output::Many(_) => panic!("expected one document"),
        }
    }
}

#[test]
fn scenario_array_fixed_length() {
    let node = o(vec![
        ("type", s("array")),
        ("minimum", Json::Int(2)),
        ("maximum", Json::Int(2)),
        ("items", o(vec![("type", s("integer")), ("minimum", Json::Int(0)), ("maximum", Json::Int(100))])),
    ]);
    let p = parse_array(&node).unwrap();
    for _ in 0..100 {
        match p.get_value() {
            Json::Arr(xs) => assert_eq!(xs.len(), 2),
            other => panic!("{:?}", other),
        }
    }
}

#[test]
fn string_without_enum_fails() {
    let node = o(vec![("type", s("string"))]);
    assert_eq!(parse_string(&node).unwrap_err(), SchemaError::Missing(Keyword::Enum));
    assert_eq!(compile_err(&node), SchemaError::Missing(Keyword::Enum));
    let schema = o(vec![("properties", o(vec![("name", node)]))]);
    assert_eq!(generate_template_from_schema(&schema).unwrap_err(), SchemaError::Missing(Keyword::Enum));
}

#[test]
fn zero_documents() {
    let template = generate_template_from_schema(&o(vec![("properties", o(vec![]))])).unwrap();
    match generate_documents(&template, 0) {
        Output::Many(docs) => assert!(docs.is_empty()),
        Output::Single(_) => panic!("expected no documents"),
    }
}

#[test]
fn integer_defaults_and_enum_precedence() {
    let only_min = parse_integer(&o(vec![("minimum", Json::Int(i64::MAX - 1))])).unwrap();
    assert_eq!(only_min.get_value(), Json::Int(i64::MAX - 1));
    let only_max = parse_integer(&o(vec![("maximum", Json::Int(i64::MIN + 1))])).unwrap();
    assert_eq!(only_max.get_value(), Json::Int(i64::MIN));
    let with_enum = parse_integer(&o(vec![
        ("enum", a(vec![Json::Int(5)])),
        ("minimum", Json::Int(0)),
        ("maximum", Json::Int(1)),
    ]))
    .unwrap();
    assert_eq!(with_enum.get_value(), Json::Int(5));
    let unbounded = parse_integer(&o(vec![])).unwrap();
    assert!(matches!(unbounded.get_value(), Json::Int(_)));
}

#[test]
fn array_minimum_defaults_to_zero() {
    let node = o(vec![
        ("maximum", Json::Int(0)),
        ("items", o(vec![("type", s("string")), ("enum", a(vec![s("q")]))])),
    ]);
    assert_eq!(parse_array(&node).unwrap().get_value(), Json::Arr(vec![]));
}

#[test]
fn compile_errors() {
    let int_node = |extra: Vec<(&str, Json)>| {
        let mut m = vec![("type", s("integer"))];
        m.extend(extra);
        o(m)
    };
    assert_eq!(compile_err(&o(vec![])), SchemaError::Missing(Keyword::Type));
    assert_eq!(compile_err(&o(vec![("type", s("float"))])), SchemaError::UnknownType);
    assert_eq!(compile_err(&o(vec![("type", Json::Int(1))])), SchemaError::UnknownType);
    assert_eq!(compile_err(&s("integer")), SchemaError::Missing(Keyword::Type));
    assert_eq!(compile_err(&int_node(vec![("minimum", s("1"))])), SchemaError::Malformed(Keyword::Minimum));
    assert_eq!(compile_err(&int_node(vec![("maximum", Json::Num("2.5".to_string()))])), SchemaError::Malformed(Keyword::Maximum));
    assert_eq!(compile_err(&int_node(vec![("minimum", Json::Int(3)), ("maximum", Json::Int(3))])), SchemaError::EmptyRange);
    assert_eq!(compile_err(&int_node(vec![("minimum", Json::Int(4)), ("maximum", Json::Int(3))])), SchemaError::EmptyRange);
    assert_eq!(compile_err(&int_node(vec![("enum", a(vec![]))])), SchemaError::EmptyEnum);
    assert_eq!(compile_err(&int_node(vec![("enum", a(vec![s("x")]))])), SchemaError::Malformed(Keyword::Enum));
    assert_eq!(compile_err(&int_node(vec![("enum", Json::Int(1))])), SchemaError::Malformed(Keyword::Enum));
    assert_eq!(
        compile_err(&o(vec![("type", s("string")), ("enum", a(vec![s("x"), Json::Int(1)]))])),
        SchemaError::Malformed(Keyword::Enum)
    );
    let items = o(vec![("type", s("string")), ("enum", a(vec![s("x")]))]);
    assert_eq!(compile_err(&o(vec![("type", s("array")), ("items", items.clone())])), SchemaError::Missing(Keyword::Maximum));
    assert_eq!(compile_err(&o(vec![("type", s("array")), ("maximum", Json::Int(2))])), SchemaError::Missing(Keyword::Items));
    assert_eq!(
        compile_err(&o(vec![("type", s("array")), ("maximum", Json::Int(-1)), ("items", items.clone())])),
        SchemaError::Malformed(Keyword::Maximum)
    );
    assert_eq!(
        compile_err(&o(vec![("type", s("array")), ("maximum", Json::Int(1)), ("minimum", s("0")), ("items", items.clone())])),
        SchemaError::Malformed(Keyword::Minimum)
    );
    assert_eq!(
        compile_err(&o(vec![("type", s("array")), ("maximum", Json::Int(1)), ("minimum", Json::Int(2)), ("items", items.clone())])),
        SchemaError::InvertedBounds
    );
    assert_eq!(
        compile_err(&o(vec![("type", s("array")), ("maximum", Json::Int(1)), ("items", o(vec![("type", s("string"))]))])),
        SchemaError::Missing(Keyword::Enum)
    );
    assert_eq!(compile_err(&o(vec![("type", s("object"))])), SchemaError::Missing(Keyword::Properties));
    assert_eq!(
        compile_err(&o(vec![("type", s("object")), ("properties", a(vec![]))])),
        SchemaError::Malformed(Keyword::Properties)
    );
    assert_eq!(
        parse_object(&o(vec![("properties", o(vec![("k", items.clone()), ("k", items.clone())]))])).unwrap_err(),
        SchemaError::DuplicateField
    );
    assert_eq!(
        compile_err(&o(vec![("type", s("object")), ("properties", o(vec![("k", o(vec![("type", s("date"))]))]))])),
        SchemaError::UnknownType
    );
}

#[test]
fn first_error_in_order_wins() {
    let bad_a = o(vec![("type", s("string"))]);
    let bad_b = o(vec![("type", s("boolean"))]);
    let props = vec![("a".to_string(), bad_a), ("b".to_string(), bad_b)];
    assert_eq!(populate_schema(&props).unwrap_err(), SchemaError::Missing(Keyword::Enum));
    let swapped = vec![props[1].clone(), props[0].clone()];
    assert_eq!(populate_schema(&swapped).unwrap_err(), SchemaError::UnknownType);
}

#[test]
fn duplicate_keys_compare_characters() {
    let node = o(vec![("type", s("integer")), ("enum", a(vec![Json::Int(1)]))]);
    let props = vec![("ab".to_string(), node.clone()), ("ba".to_string(), node.clone())];
    let fields = populate_schema(&props).unwrap();
    assert_eq!(fields.len(), 2);
    assert_eq!(fields[0].0, "ab");
    assert_eq!(fields[1].0, "ba");
}

#[test]
fn copies_are_equal() {
    let v = o(vec![("k", a(vec![Json::Null, Json::Bool(true), Json::Num("1e400".to_string()), s("é")]))]);
    assert_eq!(v.duplicate(), v);
}
