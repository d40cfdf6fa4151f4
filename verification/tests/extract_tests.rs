use unroll::record::{Pair, Record};
use unroll::schema::Schema;
use unroll::transform::{map_number, Transform};
use unroll::value::{Number, Value};

fn add_one(n: Number) -> Number {
    let x = match n {
        Number::PosInt(u) => u as f64,
        Number::NegInt(i) => i as f64,
        Number::Float(bits) => f64::from_bits(bits),
    };
    Number::Float((x + 1.0).to_bits())
}

fn inc(val: Option<Value>) -> Option<Value> {
    map_number(val, add_one)
}

fn shout(val: Option<Value>) -> Option<Value> {
    match val {
        Some(Value::String(s)) => Some(Value::String(s.to_uppercase())),
        None => Some(Value::String("NONE".to_string())),
        other => other,
    }
}

fn key(id: &str) -> Schema<Transform> {
    Schema::key(id)
}

fn named(id: &str, name: &str) -> Schema<Transform> {
    Schema::key_as(id, name)
}

fn with(id: &str, name: &str, f: Transform) -> Schema<Transform> {
    Schema::key_with(id, name, f)
}

fn sub(id: &str, children: Vec<Schema<Transform>>) -> Schema<Transform> {
    Schema::sub(id, children)
}

fn doc(children: Vec<Schema<Transform>>) -> Schema<Transform> {
    Schema::doc(children)
}

fn text(s: &str) -> Value {
    Value::String(s.to_string())
}

fn num(n: u64) -> Value {
    Value::Number(Number::PosInt(n))
}

fn double(x: f64) -> Value {
    Value::Number(Number::Float(x.to_bits()))
}

fn object(entries: Vec<(&str, Value)>) -> Value {
    Value::Object(entries.into_iter().map(|(k, v)| (k.to_string(), v)).collect())
}

fn has(name: &str, value: Value) -> Pair {
    (name.to_string(), Some(value))
}

fn lacks(name: &str) -> Pair {
    (name.to_string(), None)
}

fn person() -> Value {
    object(vec![
        ("id", num(1)),
        ("name", text("Felix Alonso")),
        ("phone", object(vec![("type", text("cell")), ("number", text("661 867 5309"))])),
        (
            "family",
            Value::Array(vec![
                object(vec![("relation", text("mom")), ("name", text("Mother Superior"))]),
                object(vec![("relation", text("dad")), ("name", text("Father Dearest"))]),
            ]),
        ),
    ])
}

fn person_schema() -> Schema<Transform> {
    doc(vec![
        with("id", "human_id", inc),
        key("name"),
        sub("phone", vec![key("type"), key("number")]),
        sub("family", vec![named("relation", "relationship"), named("name", "full_name")]),
    ])
}

#[test]
fn extract_end_to_end() {
    let results = person_schema().extract(&person());
    let expected: Vec<Record> = vec![
        vec![
            has("relationship", text("mom")),
            has("full_name", text("Mother Superior")),
            has("phone_type", text("cell")),
            has("phone_number", text("661 867 5309")),
            has("human_id", double(2.0)),
            has("name", text("Felix Alonso")),
        ],
        vec![
            has("relationship", text("dad")),
            has("full_name", text("Father Dearest")),
            has("phone_type", text("cell")),
            has("phone_number", text("661 867 5309")),
            has("human_id", double(2.0)),
            has("name", text("Felix Alonso")),
        ],
    ];
    assert_eq!(results, expected);
}

#[test]
fn extract_end_to_end_counts() {
    let results = person_schema().extract(&person());
    assert_eq!(results.len(), 2);
    assert_eq!(results[0].len(), 6);
    assert_eq!(results[1].len(), 6);
    let differing: Vec<&str> = results[0]
        .iter()
        .zip(results[1].iter())
        .filter(|(a, b)| a != b)
        .map(|(a, _)| a.0.as_str())
        .collect();
    assert_eq!(differing, vec!["relationship", "full_name"]);
}

#[test]
fn inc_of_an_absent_number_stays_null() {
    let schema = doc(vec![with("id", "human_id", inc), key("name")]);
    let results = schema.extract(&object(vec![("name", text("x"))]));
    assert_eq!(results, vec![vec![lacks("human_id"), has("name", text("x"))]]);
}

#[test]
fn inc_of_what_is_no_number_is_handed_back() {
    let schema = doc(vec![with("id", "human_id", inc)]);
    let results = schema.extract(&object(vec![("id", text("7"))]));
    assert_eq!(results, vec![vec![has("human_id", text("7"))]]);
}

#[test]
fn transform_sees_the_absent_value() {
    let schema = doc(vec![with("a", "a", shout), with("b", "b", shout)]);
    let results = schema.extract(&object(vec![("a", text("x"))]));
    assert_eq!(results, vec![vec![has("a", text("X")), has("b", text("NONE"))]]);
}

#[test]
fn flat_document_gives_one_record() {
    let schema = doc(vec![key("a"), named("b", "bee"), key("c")]);
    let results = schema.extract(&object(vec![("c", num(3)), ("a", num(1)), ("b", Value::Null)]));
    assert_eq!(
        results,
        vec![vec![has("a", num(1)), has("bee", Value::Null), has("c", num(3))]]
    );
}

#[test]
fn nested_objects_give_one_record_with_every_leaf() {
    let schema = doc(vec![
        key("a"),
        sub("x", vec![key("b"), sub("y", vec![key("c")])]),
        sub("z", vec![key("d")]),
        key("e"),
    ]);
    let document = object(vec![
        ("a", num(1)),
        ("x", object(vec![("b", num(2)), ("y", object(vec![("c", num(3))]))])),
        ("z", object(vec![("d", num(4))])),
        ("e", num(5)),
    ]);
    let results = schema.extract(&document);
    assert_eq!(results.len(), 1);
    assert_eq!(
        results[0],
        vec![
            has("z_d", num(4)),
            has("x_b", num(2)),
            has("x_y_c", num(3)),
            has("a", num(1)),
            has("e", num(5)),
        ]
    );
}

#[test]
fn output_name_is_not_prefixed() {
    let schema = doc(vec![sub("phone", vec![named("type", "kind"), key("number")])]);
    let document = object(vec![("phone", object(vec![("type", text("cell")), ("number", text("1"))]))]);
    assert_eq!(
        schema.extract(&document),
        vec![vec![has("kind", text("cell")), has("phone_number", text("1"))]]
    );
}

#[test]
fn root_with_a_name_prefixes_its_leaves() {
    let schema = sub("top", vec![key("a"), sub("in", vec![key("b")])]);
    let document = object(vec![("a", num(1)), ("in", object(vec![("b", num(2))]))]);
    assert_eq!(
        schema.extract(&document),
        vec![vec![has("top_a", num(1)), has("top_in_b", num(2))]]
    );
}

#[test]
fn colliding_names_are_kept() {
    let schema = doc(vec![named("a", "n"), named("b", "n")]);
    let document = object(vec![("a", num(1)), ("b", num(2))]);
    assert_eq!(schema.extract(&document), vec![vec![has("n", num(1)), has("n", num(2))]]);
}

#[test]
fn missing_field_is_null() {
    let schema = doc(vec![key("a"), key("b")]);
    assert_eq!(
        schema.extract(&object(vec![("b", num(2))])),
        vec![vec![lacks("a"), has("b", num(2))]]
    );
}

#[test]
fn missing_nested_object_keeps_its_leaves_as_null() {
    let schema = doc(vec![key("a"), sub("phone", vec![key("type"), key("number")])]);
    assert_eq!(
        schema.extract(&object(vec![("a", num(1))])),
        vec![vec![has("a", num(1)), lacks("phone_type"), lacks("phone_number")]]
    );
}

#[test]
fn scalar_where_an_object_is_expected_keeps_the_leaves_as_null() {
    let schema = doc(vec![key("a"), sub("phone", vec![key("type"), sub("area", vec![key("code")])])]);
    for wrong in [Value::Null, Value::Bool(true), num(5), text("cell")] {
        let document = object(vec![("a", num(1)), ("phone", wrong)]);
        assert_eq!(
            schema.extract(&document),
            vec![vec![has("a", num(1)), lacks("phone_type"), lacks("phone_area_code")]]
        );
    }
}

#[test]
fn document_that_is_no_object_gives_nulls() {
    let schema = doc(vec![key("a"), sub("x", vec![key("b")])]);
    let expected = vec![vec![lacks("a"), lacks("x_b")]];
    assert_eq!(schema.extract(&Value::Null), expected);
    assert_eq!(schema.extract(&text("a")), expected);
    assert_eq!(schema.extract(&Value::Array(vec![object(vec![("a", num(1))])])), expected);
}

#[test]
fn absent_context_gives_nulls() {
    let schema = doc(vec![key("a"), sub("x", vec![key("b")])]);
    assert_eq!(schema._extract_sub(None, ""), vec![vec![lacks("a"), lacks("x_b")]]);
    let inner = sub("r", vec![key("a"), sub("x", vec![key("b")])]);
    assert_eq!(inner._extract_sub(None, "top"), vec![vec![lacks("top_r_a"), lacks("top_r_x_b")]]);
}

#[test]
fn array_gives_one_record_for_each_element() {
    let schema = doc(vec![key("id"), sub("tags", vec![key("t")])]);
    let document = object(vec![
        ("id", num(9)),
        (
            "tags",
            Value::Array(vec![
                object(vec![("t", text("a"))]),
                object(vec![("t", text("b"))]),
                object(vec![("t", text("c"))]),
            ]),
        ),
    ]);
    assert_eq!(
        schema.extract(&document),
        vec![
            vec![has("id", num(9)), has("tags_t", text("a"))],
            vec![has("id", num(9)), has("tags_t", text("b"))],
            vec![has("id", num(9)), has("tags_t", text("c"))],
        ]
    );
}

#[test]
fn array_element_that_is_no_object_gives_nulls() {
    let schema = doc(vec![sub("tags", vec![key("t")])]);
    let document = object(vec![(
        "tags",
        Value::Array(vec![num(1), object(vec![("t", text("b"))]), Value::Null]),
    )]);
    assert_eq!(
        schema.extract(&document),
        vec![vec![lacks("tags_t")], vec![has("tags_t", text("b"))], vec![lacks("tags_t")]]
    );
}

#[test]
fn empty_array_gives_no_record() {
    let schema = doc(vec![key("id"), sub("tags", vec![key("t")])]);
    let document = object(vec![("id", num(9)), ("tags", Value::Array(vec![]))]);
    assert_eq!(schema.extract(&document), Vec::<Record>::new());
}

#[test]
fn sibling_arrays_are_cross_multiplied() {
    let schema = doc(vec![key("id"), sub("a", vec![key("x")]), sub("b", vec![key("y")])]);
    let list = |key: &str, n: u64| -> Value {
        Value::Array((1..=n).map(|i| object(vec![(key, num(i))])).collect())
    };
    let document = object(vec![("id", num(0)), ("a", list("x", 2)), ("b", list("y", 3))]);
    let results = schema.extract(&document);
    let expected: Vec<Record> = vec![
        vec![has("b_y", num(1)), has("a_x", num(1)), has("id", num(0))],
        vec![has("b_y", num(1)), has("a_x", num(2)), has("id", num(0))],
        vec![has("b_y", num(2)), has("a_x", num(1)), has("id", num(0))],
        vec![has("b_y", num(2)), has("a_x", num(2)), has("id", num(0))],
        vec![has("b_y", num(3)), has("a_x", num(1)), has("id", num(0))],
        vec![has("b_y", num(3)), has("a_x", num(2)), has("id", num(0))],
    ];
    assert_eq!(results, expected);
}

#[test]
fn two_sibling_arrays_without_fields() {
    let schema = doc(vec![sub("a", vec![key("x")]), sub("b", vec![key("y")])]);
    let list = |key: &str, n: u64| -> Value {
        Value::Array((1..=n).map(|i| object(vec![(key, num(i))])).collect())
    };
    let document = object(vec![("a", list("x", 2)), ("b", list("y", 2))]);
    let expected: Vec<Record> = vec![
        vec![has("b_y", num(1)), has("a_x", num(1))],
        vec![has("b_y", num(1)), has("a_x", num(2))],
        vec![has("b_y", num(2)), has("a_x", num(1))],
        vec![has("b_y", num(2)), has("a_x", num(2))],
    ];
    assert_eq!(schema.extract(&document), expected);
}

#[test]
fn nested_arrays_multiply_along_the_path() {
    let schema = doc(vec![sub("outer", vec![key("o"), sub("inner", vec![key("i")])])]);
    let inner = |from: u64, n: u64| -> Value {
        Value::Array((from..from + n).map(|i| object(vec![("i", num(i))])).collect())
    };
    let document = object(vec![(
        "outer",
        Value::Array(vec![
            object(vec![("o", num(1)), ("inner", inner(10, 2))]),
            object(vec![("o", num(2)), ("inner", inner(20, 3))]),
            object(vec![("o", num(3)), ("inner", inner(30, 0))]),
        ]),
    )]);
    let expected: Vec<Record> = vec![
        vec![has("outer_o", num(1)), has("outer_inner_i", num(10))],
        vec![has("outer_o", num(1)), has("outer_inner_i", num(11))],
        vec![has("outer_o", num(2)), has("outer_inner_i", num(20))],
        vec![has("outer_o", num(2)), has("outer_inner_i", num(21))],
        vec![has("outer_o", num(2)), has("outer_inner_i", num(22))],
    ];
    assert_eq!(schema.extract(&document), expected);
}

#[test]
fn record_count_is_the_product_of_the_array_lengths() {
    let schema = doc(vec![
        key("id"),
        sub("a", vec![key("x")]),
        sub("b", vec![key("y")]),
        sub("c", vec![key("z")]),
        sub("o", vec![key("w")]),
    ]);
    let list = |n: u64| -> Value { Value::Array((0..n).map(|_| object(vec![])).collect()) };
    let document = object(vec![("a", list(2)), ("b", list(3)), ("c", list(4)), ("o", object(vec![]))]);
    let results = schema.extract(&document);
    assert_eq!(results.len(), 24);
    assert!(results.iter().all(|r| r.len() == 5));
}

#[test]
fn node_without_children_gives_no_record() {
    assert_eq!(doc(vec![]).extract(&object(vec![("a", num(1))])), Vec::<Record>::new());
    let schema = doc(vec![key("a"), sub("x", vec![])]);
    assert_eq!(schema.extract(&object(vec![("a", num(1))])), Vec::<Record>::new());
}

#[test]
fn values_are_copied_whole() {
    let schema = doc(vec![key("list"), key("obj")]);
    let list = Value::Array(vec![num(1), text("a")]);
    let obj = object(vec![("k", Value::Bool(false))]);
    let document = object(vec![("list", list.clone()), ("obj", obj.clone())]);
    assert_eq!(schema.extract(&document), vec![vec![has("list", list), has("obj", obj)]]);
}

#[test]
fn extract_key_resolves_name_and_value() {
    let document = object(vec![("id", num(1))]);
    assert_eq!(key("id")._extract_key(Some(&document), ""), has("id", num(1)));
    assert_eq!(key("id")._extract_key(Some(&document), "top"), has("top_id", num(1)));
    assert_eq!(named("id", "n")._extract_key(Some(&document), "top"), has("n", num(1)));
    assert_eq!(with("id", "n", inc)._extract_key(Some(&document), "top"), has("n", double(2.0)));
    assert_eq!(key("no")._extract_key(Some(&document), "top"), lacks("top_no"));
    assert_eq!(key("id")._extract_key(None, "top"), lacks("top_id"));
    assert_eq!(key("id")._extract_key(Some(&num(1)), ""), lacks("id"));
}

#[test]
fn schema_built_by_hand_extracts_the_same() {
    let by_hand: Schema<Transform> = Schema::Sub(
        String::new(),
        vec![
            Schema::Key("id".to_string(), Some("human_id".to_string()), Some(inc)),
            Schema::Key("name".to_string(), None, None),
            Schema::Sub(
                "phone".to_string(),
                vec![
                    Schema::Key("type".to_string(), None, None),
                    Schema::Key("number".to_string(), None, None),
                ],
            ),
            Schema::Sub(
                "family".to_string(),
                vec![
                    Schema::Key("relation".to_string(), Some("relationship".to_string()), None),
                    Schema::Key("name".to_string(), Some("full_name".to_string()), None),
                ],
            ),
        ],
    );
    assert_eq!(by_hand.extract(&person()), person_schema().extract(&person()));
    assert_eq!(by_hand.names(), person_schema().names());
}

#[test]
fn closures_serve_as_transforms() {
    let suffix = "!".to_string();
    let mark = |v: Option<Value>| match v {
        Some(Value::String(s)) => Some(Value::String(s + &suffix)),
        other => other,
    };
    let schema = Schema::doc(vec![Schema::key_with("a", "a", &mark), Schema::key_with("b", "b", &mark)]);
    assert_eq!(
        schema.extract(&object(vec![("a", text("x")), ("b", num(1))])),
        vec![vec![has("a", text("x!")), has("b", num(1))]]
    );
}
