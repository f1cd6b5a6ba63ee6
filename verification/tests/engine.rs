use logic_engine::dsl::AppDefinition;
use logic_engine::dsl::AppProgram;
use logic_engine::dsl::CmpOp;
use logic_engine::dsl::ConstantValue;
use logic_engine::dsl::FormatVariable;
use logic_engine::dsl::LogicOp;
use logic_engine::dsl::LogicStep;
use logic_engine::dsl::MathOp;
use logic_engine::json::Json;
use logic_engine::policy::retry_backoff_secs;
use logic_engine::policy::validation_action;
use logic_engine::policy::ValidationAction;
use logic_engine::runtime::Runtime;
use logic_engine::state::EngineError;
use logic_engine::state::RuntimeState;
use logic_engine::state::TypeWant;

fn num(x: f64) -> Json {
    Json::Num(serde_json::Number::from_f64(x).unwrap())
}

fn inum(x: u64) -> Json {
    Json::Num(serde_json::Number::from(x))
}

fn text(s: &str) -> Json {
    Json::Text(s.to_string())
}

fn obj(entries: Vec<(&str, Json)>) -> Json {
    Json::Obj(entries.into_iter().map(|(k, v)| (k.to_string(), v)).collect())
}

fn step(id: &str, operation: LogicOp, output_path: &str) -> LogicStep {
    LogicStep {
        id: id.to_string(),
        description: String::new(),
        operation,
        output_path: output_path.to_string(),
    }
}

fn program(steps: Vec<LogicStep>, output_schema: Json) -> AppProgram {
    AppProgram {
        definition: AppDefinition {
            name: "test app".to_string(),
            description: String::new(),
            input_schema: obj(vec![]),
            output_schema,
        },
        steps,
    }
}

fn schema_with(props: Vec<&str>) -> Json {
    obj(vec![("properties", obj(props.into_iter().map(|p| (p, obj(vec![]))).collect()))])
}

#[test]
fn write_root_then_read() {
    let mut state = RuntimeState::new(obj(vec![]));
    state.set("/a", num(4.5)).unwrap();
    assert_eq!(state.get("/a").unwrap(), num(4.5));
}

#[test]
fn write_two_segments_creates_section() {
    let mut state = RuntimeState::new(obj(vec![]));
    state.set("/a/b", num(2.0)).unwrap();
    assert_eq!(state.get("/a/b").unwrap(), num(2.0));
    assert_eq!(state.get("/a").unwrap(), obj(vec![("b", num(2.0))]));
}

#[test]
fn write_three_segments_fails() {
    let mut state = RuntimeState::new(obj(vec![]));
    let r = state.set("/a/b/c", num(1.0));
    assert_eq!(r, Err(EngineError::InvalidWritePath { path: "/a/b/c".to_string() }));
}

#[test]
fn write_replaces_in_place() {
    let mut state = RuntimeState::new(obj(vec![("x", inum(1))]));
    state.set("/inputs/x", inum(2)).unwrap();
    assert_eq!(state.get("/inputs/x").unwrap(), inum(2));
}

#[test]
fn read_fallback_into_inputs() {
    let state = RuntimeState::new(obj(vec![("x", text("v"))]));
    assert_eq!(state.get("/x").unwrap(), text("v"));
    assert_eq!(state.get("/inputs/x").unwrap(), state.get("/x").unwrap());
}

#[test]
fn read_whole_document_with_empty_path() {
    let state = RuntimeState::new(obj(vec![]));
    assert_eq!(
        state.get("").unwrap(),
        obj(vec![("inputs", obj(vec![])), ("temp", obj(vec![]))])
    );
}

#[test]
fn read_miss_reports_key_hints() {
    let state = RuntimeState::new(obj(vec![("x", inum(1))]));
    match state.get("/missing") {
        Err(EngineError::PathNotFound { path, root_keys, input_keys }) => {
            assert_eq!(path, "/missing");
            assert_eq!(root_keys, vec!["inputs".to_string(), "temp".to_string()]);
            assert_eq!(input_keys, Some(vec!["x".to_string()]));
        },
        other => panic!("expected a not-found error, got {:?}", other),
    }
}

#[test]
fn read_indexes_arrays() {
    let state = RuntimeState::new(obj(vec![("items", Json::Arr(vec![inum(7), inum(8)]))]));
    assert_eq!(state.get("/inputs/items/1").unwrap(), inum(8));
    assert!(state.get("/inputs/items/2").is_err());
    assert!(state.get("/inputs/items/01").is_err());
}

#[test]
fn read_decodes_pointer_escapes() {
    let state = RuntimeState::new(obj(vec![("a/b", inum(3)), ("c~d", inum(4))]));
    assert_eq!(state.get("/inputs/a~1b").unwrap(), inum(3));
    assert_eq!(state.get("/inputs/c~0d").unwrap(), inum(4));
}

#[test]
fn divide_by_zero_fails() {
    let p = program(
        vec![
            step("z", LogicOp::Constant { value: ConstantValue::Number(serde_json::Number::from(0u64)) }, "/temp/z"),
            step("d", LogicOp::Divide { a: "/inputs/x".to_string(), b: "/temp/z".to_string() }, "/out"),
        ],
        schema_with(vec!["out"]),
    );
    let r = Runtime::execute(&p, obj(vec![("x", num(10.0))]));
    assert_eq!(r, Err(EngineError::DivisionByZero));
}

#[test]
fn divide_returns_quotient() {
    let p = program(
        vec![step("d", LogicOp::Divide { a: "/inputs/a".to_string(), b: "/inputs/b".to_string() }, "/out")],
        schema_with(vec!["out"]),
    );
    let r = Runtime::execute(&p, obj(vec![("a", num(9.0)), ("b", num(2.0))])).unwrap();
    assert_eq!(r, obj(vec![("out", num(4.5))]));
}

#[test]
fn scalar_math_add_subtract_multiply() {
    let p = program(
        vec![
            step("s", LogicOp::Add { a: "/inputs/a".to_string(), b: "/inputs/b".to_string() }, "/t1"),
            step("u", LogicOp::Subtract { a: "/t1".to_string(), b: "/inputs/b".to_string() }, "/t2"),
            step("m", LogicOp::Multiply { a: "/t2".to_string(), b: "/inputs/b".to_string() }, "/t3"),
        ],
        schema_with(vec!["t1", "t2", "t3"]),
    );
    let r = Runtime::execute(&p, obj(vec![("a", num(2.0)), ("b", num(3.0))])).unwrap();
    assert_eq!(
        r,
        obj(vec![("t1", num(5.0)), ("t2", num(2.0)), ("t3", num(6.0))])
    );
}

#[test]
fn math_on_non_number_is_type_mismatch() {
    let p = program(
        vec![step("s", LogicOp::Add { a: "/inputs/a".to_string(), b: "/inputs/b".to_string() }, "/t")],
        schema_with(vec!["t"]),
    );
    let r = Runtime::execute(&p, obj(vec![("a", text("x")), ("b", num(3.0))]));
    assert_eq!(
        r,
        Err(EngineError::TypeMismatch { path: "/inputs/a".to_string(), wanted: TypeWant::Number })
    );
}

#[test]
fn aggregate_on_non_array_is_type_mismatch() {
    let p = program(
        vec![step("c", LogicOp::Count { list_path: "/inputs/items".to_string() }, "/t")],
        schema_with(vec!["t"]),
    );
    let r = Runtime::execute(&p, obj(vec![("items", num(3.0))]));
    assert_eq!(
        r,
        Err(EngineError::TypeMismatch { path: "/inputs/items".to_string(), wanted: TypeWant::Array })
    );
}

#[test]
fn missing_operand_is_path_not_found() {
    let p = program(
        vec![step("s", LogicOp::Add { a: "/inputs/nope".to_string(), b: "/inputs/b".to_string() }, "/t")],
        schema_with(vec!["t"]),
    );
    match Runtime::execute(&p, obj(vec![("b", num(3.0))])) {
        Err(EngineError::PathNotFound { path, .. }) => assert_eq!(path, "/inputs/nope"),
        other => panic!("expected a not-found error, got {:?}", other),
    }
}

#[test]
fn calculate_divides_by_zero_to_zero() {
    let items = Json::Arr(vec![
        obj(vec![("a", num(10.0)), ("b", num(2.0))]),
        obj(vec![("a", num(10.0)), ("b", num(0.0))]),
    ]);
    let p = program(
        vec![step(
            "c",
            LogicOp::Calculate {
                list_path: "/inputs/items".to_string(),
                output_field: "q".to_string(),
                operator: MathOp::Divide,
                a_field: "a".to_string(),
                b_field: "b".to_string(),
            },
            "/out",
        )],
        schema_with(vec!["out"]),
    );
    let r = Runtime::execute(&p, obj(vec![("items", items)])).unwrap();
    let want0 = obj(vec![("a", num(10.0)), ("b", num(2.0)), ("q", num(5.0))]);
    let want1 = obj(vec![("a", num(10.0)), ("b", num(0.0)), ("q", num(0.0))]);
    let want = Json::Arr(vec![want0, want1]);
    assert_eq!(r, obj(vec![("out", want)]));
}

#[test]
fn calculate_resolves_global_paths_and_defaults() {
    let items = Json::Arr(vec![obj(vec![("a", num(3.0))])]);
    let p = program(
        vec![step(
            "c",
            LogicOp::Calculate {
                list_path: "/inputs/items".to_string(),
                output_field: "m".to_string(),
                operator: MathOp::Multiply,
                a_field: "a".to_string(),
                b_field: "/inputs/rate".to_string(),
            },
            "/out",
        )],
        schema_with(vec!["out"]),
    );
    let r = Runtime::execute(&p, obj(vec![("items", items), ("rate", num(2.0))])).unwrap();
    let want_elem = obj(vec![("a", num(3.0)), ("m", num(6.0))]);
    let want = Json::Arr(vec![want_elem]);
    assert_eq!(r, obj(vec![("out", want)]));
}

#[test]
fn sum_over_field() {
    // the end-to-end scenario: one summing step and a one-property schema
    let p = program(
        vec![step(
            "t",
            LogicOp::Sum { list_path: "/inputs/items".to_string(), field: Some("value".to_string()) },
            "/total",
        )],
        schema_with(vec!["total"]),
    );
    let items = Json::Arr(vec![obj(vec![("value", inum(10))]), obj(vec![("value", inum(5))])]);
    let r = Runtime::execute(&p, obj(vec![("items", items)])).unwrap();
    assert_eq!(r, obj(vec![("total", num(15.0))]));
}

#[test]
fn sum_skips_non_numeric_and_empty_is_zero() {
    let p = program(
        vec![
            step("s", LogicOp::Sum { list_path: "/inputs/xs".to_string(), field: None }, "/s"),
            step("e", LogicOp::Sum { list_path: "/inputs/none".to_string(), field: None }, "/e"),
        ],
        schema_with(vec!["s", "e"]),
    );
    let xs = Json::Arr(vec![inum(1), text("skip"), inum(2)]);
    let r = Runtime::execute(&p, obj(vec![("xs", xs), ("none", Json::Arr(vec![]))])).unwrap();
    assert_eq!(r, obj(vec![("s", num(3.0)), ("e", num(0.0))]));
}

#[test]
fn count_is_exact_length() {
    let p = program(
        vec![step("c", LogicOp::Count { list_path: "/inputs/xs".to_string() }, "/n")],
        schema_with(vec!["n"]),
    );
    let xs = Json::Arr(vec![inum(1), text("two"), Json::Null]);
    let r = Runtime::execute(&p, obj(vec![("xs", xs)])).unwrap();
    assert_eq!(r, obj(vec![("n", inum(3))]));
}

#[test]
fn min_max_over_values() {
    let p = program(
        vec![
            step("lo", LogicOp::Min { list_path: "/inputs/xs".to_string(), field: None }, "/lo"),
            step("hi", LogicOp::Max { list_path: "/inputs/xs".to_string(), field: None }, "/hi"),
        ],
        schema_with(vec!["lo", "hi"]),
    );
    let xs = Json::Arr(vec![num(3.0), num(1.0), num(2.0)]);
    let r = Runtime::execute(&p, obj(vec![("xs", xs)])).unwrap();
    assert_eq!(r, obj(vec![("lo", num(1.0)), ("hi", num(3.0))]));
}

#[test]
fn min_max_of_empty_array() {
    // the reduction's identity is the infinite value, which the document's
    // number representation cannot hold: it is stored as its null encoding
    let p = program(
        vec![
            step("lo", LogicOp::Min { list_path: "/inputs/xs".to_string(), field: None }, "/lo"),
            step("hi", LogicOp::Max { list_path: "/inputs/xs".to_string(), field: None }, "/hi"),
        ],
        schema_with(vec!["lo", "hi"]),
    );
    let r = Runtime::execute(&p, obj(vec![("xs", Json::Arr(vec![]))])).unwrap();
    assert_eq!(r, obj(vec![("lo", Json::Null), ("hi", Json::Null)]));
}

#[test]
fn pluck_substitutes_null() {
    let p = program(
        vec![step(
            "p",
            LogicOp::Pluck { path: "/inputs/xs".to_string(), key: "name".to_string() },
            "/names",
        )],
        schema_with(vec!["names"]),
    );
    let xs = Json::Arr(vec![obj(vec![("name", text("a"))]), obj(vec![("other", inum(1))]), inum(9)]);
    let r = Runtime::execute(&p, obj(vec![("xs", xs)])).unwrap();
    let want = Json::Arr(vec![text("a"), Json::Null, Json::Null]);
    assert_eq!(r, obj(vec![("names", want)]));
}

#[test]
fn sort_ascending_and_descending() {
    let xs = Json::Arr(vec![
        obj(vec![("v", num(3.0)), ("tag", text("c"))]),
        obj(vec![("v", num(1.0)), ("tag", text("a"))]),
        obj(vec![("v", num(2.0)), ("tag", text("b"))]),
    ]);
    let p = program(
        vec![
            step("a", LogicOp::Sort { list_path: "/inputs/xs".to_string(), field: "v".to_string(), descending: false }, "/asc"),
            step("d", LogicOp::Sort { list_path: "/inputs/xs".to_string(), field: "v".to_string(), descending: true }, "/desc"),
        ],
        schema_with(vec!["asc", "desc"]),
    );
    let r = Runtime::execute(&p, obj(vec![("xs", xs)])).unwrap();
    let asc = Json::Arr(vec![
        obj(vec![("v", num(1.0)), ("tag", text("a"))]),
        obj(vec![("v", num(2.0)), ("tag", text("b"))]),
        obj(vec![("v", num(3.0)), ("tag", text("c"))]),
    ]);
    let desc = Json::Arr(vec![
        obj(vec![("v", num(3.0)), ("tag", text("c"))]),
        obj(vec![("v", num(2.0)), ("tag", text("b"))]),
        obj(vec![("v", num(1.0)), ("tag", text("a"))]),
    ]);
    assert_eq!(r, obj(vec![("asc", asc), ("desc", desc)]));
}

#[test]
fn sort_is_stable() {
    let xs = Json::Arr(vec![
        obj(vec![("v", num(1.0)), ("tag", text("first"))]),
        obj(vec![("v", num(1.0)), ("tag", text("second"))]),
        obj(vec![("v", num(0.0)), ("tag", text("small"))]),
    ]);
    let p = program(
        vec![step("s", LogicOp::Sort { list_path: "/inputs/xs".to_string(), field: "v".to_string(), descending: false }, "/out")],
        schema_with(vec!["out"]),
    );
    let r = Runtime::execute(&p, obj(vec![("xs", xs)])).unwrap();
    let want = Json::Arr(vec![
        obj(vec![("v", num(0.0)), ("tag", text("small"))]),
        obj(vec![("v", num(1.0)), ("tag", text("first"))]),
        obj(vec![("v", num(1.0)), ("tag", text("second"))]),
    ]);
    assert_eq!(r, obj(vec![("out", want)]));
}

#[test]
fn filter_numeric_keeps_matches() {
    let xs = Json::Arr(vec![
        obj(vec![("v", num(5.0))]),
        obj(vec![("v", num(1.0))]),
        obj(vec![("w", num(9.0))]),
        text("dropped"),
    ]);
    let p = program(
        vec![step(
            "f",
            LogicOp::FilterNumeric {
                list_path: "/inputs/xs".to_string(),
                field: Some("v".to_string()),
                operator: CmpOp::Gt,
                value: serde_json::Number::from_f64(2.0).unwrap(),
            },
            "/out",
        )],
        schema_with(vec!["out"]),
    );
    let r = Runtime::execute(&p, obj(vec![("xs", xs)])).unwrap();
    let kept = obj(vec![("v", num(5.0))]);
    assert_eq!(r, obj(vec![("out", Json::Arr(vec![kept]))]));
}

#[test]
fn filter_numeric_eq_is_tolerant() {
    let xs = Json::Arr(vec![num(2.0), num(2.1)]);
    let p = program(
        vec![step(
            "f",
            LogicOp::FilterNumeric {
                list_path: "/inputs/xs".to_string(),
                field: None,
                operator: CmpOp::Eq,
                value: serde_json::Number::from_f64(2.0).unwrap(),
            },
            "/out",
        )],
        schema_with(vec!["out"]),
    );
    let r = Runtime::execute(&p, obj(vec![("xs", xs)])).unwrap();
    assert_eq!(r, obj(vec![("out", Json::Arr(vec![num(2.0)]))]));
}

#[test]
fn format_string_substitutes_resolved() {
    let p = program(
        vec![step(
            "f",
            LogicOp::FormatString {
                template: "Hello {name}".to_string(),
                variables: vec![FormatVariable { key: "name".to_string(), path: "/inputs/name".to_string() }],
            },
            "/msg",
        )],
        schema_with(vec!["msg"]),
    );
    let r = Runtime::execute(&p, obj(vec![("name", text("Ann"))])).unwrap();
    assert_eq!(r, obj(vec![("msg", text("Hello Ann"))]));
}

#[test]
fn format_string_leaves_unresolved_placeholder() {
    let p = program(
        vec![step(
            "f",
            LogicOp::FormatString {
                template: "Hello {name}".to_string(),
                variables: vec![FormatVariable { key: "name".to_string(), path: "/inputs/name".to_string() }],
            },
            "/msg",
        )],
        schema_with(vec!["msg"]),
    );
    let r = Runtime::execute(&p, obj(vec![])).unwrap();
    assert_eq!(r, obj(vec![("msg", text("Hello {name}"))]));
}

#[test]
fn format_string_renders_each_shape() {
    let p = program(
        vec![step(
            "f",
            LogicOp::FormatString {
                template: "n={n} b={b} s={s} o={o}".to_string(),
                variables: vec![
                    FormatVariable { key: "n".to_string(), path: "/inputs/n".to_string() },
                    FormatVariable { key: "b".to_string(), path: "/inputs/b".to_string() },
                    FormatVariable { key: "s".to_string(), path: "/inputs/s".to_string() },
                    FormatVariable { key: "o".to_string(), path: "/inputs/o".to_string() },
                ],
            },
            "/msg",
        )],
        schema_with(vec!["msg"]),
    );
    let inputs = obj(vec![
        ("n", num(2.5)),
        ("b", Json::Bool(true)),
        ("s", text("raw")),
        ("o", obj(vec![("k", text("a\"b"))])),
    ]);
    let r = Runtime::execute(&p, inputs).unwrap();
    assert_eq!(
        r,
        obj(vec![("msg", text("n=2.5 b=true s=raw o={\"k\":\"a\\\"b\"}"))])
    );
}

#[test]
fn constant_produces_each_literal() {
    let p = program(
        vec![
            step("t", LogicOp::Constant { value: ConstantValue::Text("hi".to_string()) }, "/t"),
            step("n", LogicOp::Constant { value: ConstantValue::Number(serde_json::Number::from_f64(1.5).unwrap()) }, "/n"),
            step("b", LogicOp::Constant { value: ConstantValue::Bool(false) }, "/b"),
            step("z", LogicOp::Constant { value: ConstantValue::Null }, "/z"),
        ],
        schema_with(vec!["t", "n", "b", "z"]),
    );
    let r = Runtime::execute(&p, obj(vec![])).unwrap();
    assert_eq!(
        r,
        obj(vec![("t", text("hi")), ("n", num(1.5)), ("b", Json::Bool(false)), ("z", Json::Null)])
    );
}

#[test]
fn get_step_propagates_not_found() {
    let p = program(
        vec![step("g", LogicOp::Get { path: "/inputs/gone".to_string() }, "/t")],
        schema_with(vec!["t"]),
    );
    match Runtime::execute(&p, obj(vec![])) {
        Err(EngineError::PathNotFound { path, .. }) => assert_eq!(path, "/inputs/gone"),
        other => panic!("expected a not-found error, got {:?}", other),
    }
}

#[test]
fn extraction_falls_back_to_full_document() {
    let p = program(
        vec![step("g", LogicOp::Constant { value: ConstantValue::Bool(true) }, "/flag")],
        obj(vec![]),
    );
    let r = Runtime::execute(&p, obj(vec![])).unwrap();
    assert_eq!(
        r,
        obj(vec![("inputs", obj(vec![])), ("temp", obj(vec![])), ("flag", Json::Bool(true))])
    );
}

#[test]
fn extraction_drops_unmatched_keys() {
    let p = program(
        vec![
            step("a", LogicOp::Constant { value: ConstantValue::Bool(true) }, "/a"),
            step("b", LogicOp::Constant { value: ConstantValue::Bool(false) }, "/b"),
        ],
        schema_with(vec!["a", "missing"]),
    );
    let r = Runtime::execute(&p, obj(vec![])).unwrap();
    assert_eq!(r, obj(vec![("a", Json::Bool(true))]));
}

#[test]
fn repeated_execution_is_identical() {
    let p = program(
        vec![step(
            "t",
            LogicOp::Sum { list_path: "/inputs/items".to_string(), field: Some("value".to_string()) },
            "/total",
        )],
        schema_with(vec!["total"]),
    );
    let items = Json::Arr(vec![obj(vec![("value", inum(10))]), obj(vec![("value", inum(5))])]);
    let inputs1 = obj(vec![("items", items)]);
    let items2 = Json::Arr(vec![obj(vec![("value", inum(10))]), obj(vec![("value", inum(5))])]);
    let inputs2 = obj(vec![("items", items2)]);
    let r1 = Runtime::execute(&p, inputs1);
    let r2 = Runtime::execute(&p, inputs2);
    assert_eq!(r1, r2);
}

#[test]
fn sum_of_integer_input_is_reencoded_as_float() {
    // a single integer-encoded input comes back as the float it sums to
    let p = program(
        vec![step("s", LogicOp::Sum { list_path: "/inputs/xs".to_string(), field: None }, "/s")],
        schema_with(vec!["s"]),
    );
    let r = Runtime::execute(&p, obj(vec![("xs", Json::Arr(vec![inum(10)]))])).unwrap();
    assert_eq!(r, obj(vec![("s", num(10.0))]));
    assert_ne!(r, obj(vec![("s", inum(10))]));
}

#[test]
fn clean_json_block_cuts_fenced_text() {
    let got = logic_engine::textio::clean_json_block("noise ```json\n{\"a\": 1}\n``` trailing");
    assert_eq!(got, "{\"a\": 1}");
}

#[test]
fn clean_json_block_without_fences_trims() {
    let got = logic_engine::textio::clean_json_block("  {\"a\": 1} \n");
    assert_eq!(got, "{\"a\": 1}");
}

#[test]
fn extract_json_object_from_fenced_reply() {
    let got = logic_engine::textio::extract_json_object(
        " ```json\n prose {\"type\": \"object\"} more } \n``` ",
    );
    assert_eq!(got, "{\"type\": \"object\"} more }");
}

#[test]
fn extract_json_object_blanks_control_characters() {
    let got = logic_engine::textio::extract_json_object("{\"a\":\t1}");
    assert_eq!(got, "{\"a\": 1}");
}

#[test]
fn extract_json_object_without_braces_keeps_text() {
    let got = logic_engine::textio::extract_json_object("  plain words  ");
    assert_eq!(got, "plain words");
}

#[test]
fn validation_policy_decides() {
    assert_eq!(validation_action(1, true), ValidationAction::Accept);
    assert_eq!(validation_action(1, false), ValidationAction::Fix);
    assert_eq!(validation_action(2, false), ValidationAction::Fix);
    assert_eq!(validation_action(3, false), ValidationAction::GiveUp);
    assert_eq!(validation_action(3, true), ValidationAction::Accept);
}

#[test]
fn retry_backoff_doubles() {
    assert_eq!(retry_backoff_secs(1), 2);
    assert_eq!(retry_backoff_secs(2), 4);
    assert_eq!(retry_backoff_secs(3), 8);
}

#[test]
fn clean_schema_resolves_references() {
    let thing = obj(vec![("type", text("string")), ("title", text("X"))]);
    let root = obj(vec![
        ("$ref", text("#/definitions/Thing")),
        ("definitions", obj(vec![("Thing", thing)])),
    ]);
    let got = logic_engine::schema::clean_schema(&root);
    assert_eq!(got, obj(vec![("type", text("string"))]));
}

#[test]
fn clean_schema_marks_nullable_pairs() {
    let root = obj(vec![("type", Json::Arr(vec![text("string"), text("null")]))]);
    let got = logic_engine::schema::clean_schema(&root);
    assert_eq!(got, obj(vec![("type", text("string")), ("nullable", Json::Bool(true))]));
}

#[test]
fn clean_schema_types_boolean_subschemas() {
    let props = obj(vec![("x", Json::Bool(true))]);
    let root = obj(vec![("type", text("object")), ("properties", props)]);
    let got = logic_engine::schema::clean_schema(&root);
    // the permissive boolean first becomes the four-type list, whose
    // non-nullable form then collapses to its first entry
    let want_props = obj(vec![("x", obj(vec![("type", text("string"))]))]);
    assert_eq!(got, obj(vec![("type", text("object")), ("properties", want_props)]));
}

#[test]
fn clean_schema_flags_unknown_references() {
    let root = obj(vec![("$ref", text("#/definitions/Missing"))]);
    let got = logic_engine::schema::clean_schema(&root);
    let want = obj(vec![
        ("type", text("object")),
        ("description", text("Unresolvable reference")),
    ]);
    assert_eq!(got, want);
}

#[test]
fn clean_schema_strips_bookkeeping_keys() {
    let inner = obj(vec![("type", text("number")), ("default", num(1.0))]);
    let root = obj(vec![
        ("$schema", text("meta")),
        ("title", text("T")),
        ("type", text("object")),
        ("properties", obj(vec![("n", inner)])),
    ]);
    let got = logic_engine::schema::clean_schema(&root);
    let want_props = obj(vec![("n", obj(vec![("type", text("number"))]))]);
    assert_eq!(got, obj(vec![("type", text("object")), ("properties", want_props)]));
}
