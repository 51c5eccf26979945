use i3toolwait::json::Json;
use i3toolwait::lisp;
use i3toolwait::lisp::{
    parse_program, serde_lisp_value, split_path, Environment, Evaluation, LispValue, LookupError,
};

/// Runs the interpreter as the caller of the library does.
fn evaluate(environment: Environment, init: &str, program: &str) -> Evaluation {
    let env = std::rc::Rc::new(std::cell::RefCell::new(environment.bindings()));
    let clauses = parse_program(init).into_iter().chain(parse_program(program));
    match rust_lisp::interpreter::eval_block(env, clauses) {
        Ok(value) => Evaluation::Returned {
            is_false: value == rust_lisp::model::Value::False,
            text: value.to_string(),
        },
        Err(error) => Evaluation::Failed { message: error.to_string() },
    }
}

fn object(members: Vec<(&str, Json)>) -> Json {
    Json::Object(members.into_iter().map(|(k, v)| (k.to_string(), v)).collect())
}

fn nested(inner: Vec<(&str, Json)>) -> Json {
    object(vec![("a", object(vec![("b", object(inner))]))])
}

fn text(s: &str) -> Json {
    Json::Text(s.to_string())
}

#[test]
fn load_follows_a_dotted_path() {
    let environment = lisp::env(&nested(vec![("c", Json::PosInt(5))]));
    assert_eq!(environment.load("a.b.c"), Ok(&LispValue::Int(5)));
    assert!(environment.has_key("a.b.c"));
}

#[test]
fn load_fails_on_a_missing_key() {
    let environment = lisp::env(&nested(vec![]));
    assert_eq!(environment.load("a.b.c"), Err(LookupError { key: "c".to_string() }));
    assert!(!environment.has_key("a.b.c"));
}

#[test]
fn load_names_the_first_segment_that_fails() {
    let environment = lisp::env(&nested(vec![("c", Json::PosInt(5))]));
    assert_eq!(environment.load("a.x.c"), Err(LookupError { key: "x".to_string() }));
    assert_eq!(environment.load("x.b.c"), Err(LookupError { key: "x".to_string() }));
    // A number has no entries.
    assert_eq!(environment.load("a.b.c.d"), Err(LookupError { key: "d".to_string() }));
    assert!(!environment.has_key("a.b.c.d"));
}

#[test]
fn load_of_no_segment_is_the_event() {
    let environment = lisp::env(&Json::PosInt(7));
    assert_eq!(environment.load(""), Ok(&LispValue::Int(7)));
    assert_eq!(environment.load("..."), Ok(&LispValue::Int(7)));
    assert!(environment.has_key(""));
    assert_eq!(environment.load("a"), Err(LookupError { key: "a".to_string() }));
}

#[test]
fn load_passes_over_empty_segments() {
    let environment = lisp::env(&nested(vec![("c", text("deep"))]));
    assert_eq!(environment.load(".a..b.c."), Ok(&LispValue::Text("deep".to_string())));
}

#[test]
fn load_takes_the_later_of_two_entries() {
    let json = object(vec![("k", Json::PosInt(1)), ("other", Json::Null), ("k", Json::PosInt(2))]);
    assert_eq!(lisp::env(&json).load("k"), Ok(&LispValue::Int(2)));
    assert_eq!(json.get("k"), Some(&Json::PosInt(2)));
    assert_eq!(json.get("missing"), None);
    assert_eq!(Json::PosInt(1).get("k"), None);
}

#[test]
fn lookup_error_speaks_as_the_interpreter_does() {
    assert_eq!(
        LookupError { key: "app_id".to_string() }.message(),
        "No such key Value::String(\"app_id\")"
    );
    assert_eq!(
        LookupError { key: "a\"b".to_string() }.message(),
        "No such key Value::String(\"a\\\"b\")"
    );
}

#[test]
fn split_path_drops_empty_segments() {
    assert_eq!(split_path("a.b.c"), vec!["a", "b", "c"]);
    assert_eq!(split_path("..a...b."), vec!["a", "b"]);
    assert_eq!(split_path(""), Vec::<String>::new());
    assert_eq!(split_path("..."), Vec::<String>::new());
    assert_eq!(split_path("container"), vec!["container"]);
    assert_eq!(split_path("é.ü x.日本"), vec!["é", "ü x", "日本"]);
}

#[test]
fn null_converts_to_the_empty_list() {
    assert_eq!(serde_lisp_value(&Json::Null), LispValue::List(vec![]));
    assert_eq!(serde_lisp_value(&Json::Array(vec![])), LispValue::List(vec![]));
}

#[test]
fn booleans_and_strings_convert_to_themselves() {
    assert_eq!(serde_lisp_value(&Json::Bool(true)), LispValue::True);
    assert_eq!(serde_lisp_value(&Json::Bool(false)), LispValue::False);
    assert_eq!(serde_lisp_value(&text("firefox")), LispValue::Text("firefox".to_string()));
}

#[test]
fn integers_that_fit_stay_integers() {
    assert_eq!(serde_lisp_value(&Json::PosInt(0)), LispValue::Int(0));
    assert_eq!(serde_lisp_value(&Json::PosInt(5)), LispValue::Int(5));
    assert_eq!(serde_lisp_value(&Json::PosInt(2147483647)), LispValue::Int(i32::MAX));
    assert_eq!(serde_lisp_value(&Json::NegInt(-1)), LispValue::Int(-1));
    assert_eq!(serde_lisp_value(&Json::NegInt(-2147483648)), LispValue::Int(i32::MIN));
    assert_eq!(serde_lisp_value(&Json::NegInt(7)), LispValue::Int(7));
}

#[test]
fn integers_that_do_not_fit_become_floats() {
    let float = |x: f32| LispValue::Float(x.to_bits());
    assert_eq!(serde_lisp_value(&Json::PosInt(2147483648)), float(2147483648.0));
    assert_eq!(serde_lisp_value(&Json::PosInt(4294967301)), float(4294967301.0));
    assert_eq!(serde_lisp_value(&Json::PosInt(u64::MAX)), float(18446744073709551615.0));
    assert_eq!(serde_lisp_value(&Json::NegInt(-2147483649)), float(-2147483649.0));
    assert_eq!(serde_lisp_value(&Json::NegInt(i64::MIN)), float(-9223372036854775808.0));
    assert_eq!(
        evaluate(lisp::env(&Json::PosInt(4294967296)), "", "__input__"),
        Evaluation::Returned { is_false: false, text: "4294967300".to_string() }
    );
}

#[test]
fn floats_keep_their_bits() {
    assert_eq!(
        serde_lisp_value(&Json::Float(1.5f32.to_bits())),
        LispValue::Float(1.5f32.to_bits())
    );
}

#[test]
fn arrays_and_objects_convert_item_by_item() {
    let json = object(vec![
        ("list", Json::Array(vec![Json::PosInt(1), Json::Null, text("x")])),
        ("flag", Json::Bool(false)),
    ]);
    assert_eq!(
        serde_lisp_value(&json),
        LispValue::HashMap(vec![
            (
                "list".to_string(),
                LispValue::List(vec![
                    LispValue::Int(1),
                    LispValue::List(vec![]),
                    LispValue::Text("x".to_string())
                ])
            ),
            ("flag".to_string(), LispValue::False),
        ])
    );
}

#[test]
fn json_is_decoded_as_serde_json_decodes_it() {
    assert_eq!(Json::parse(b"null"), Ok(Json::Null));
    assert_eq!(Json::parse(b" true "), Ok(Json::Bool(true)));
    assert_eq!(Json::parse(b"0"), Ok(Json::PosInt(0)));
    assert_eq!(Json::parse(b"18446744073709551615"), Ok(Json::PosInt(u64::MAX)));
    assert_eq!(Json::parse(b"-7"), Ok(Json::NegInt(-7)));
    assert_eq!(Json::parse(b"2.5"), Ok(Json::Float(2.5f32.to_bits())));
    assert_eq!(Json::parse(b"1e2"), Ok(Json::Float(100f32.to_bits())));
    assert_eq!(Json::parse(b"0.1"), Ok(Json::Float(0.1f32.to_bits())));
    assert_eq!(Json::parse(b"\"a\\nb\""), Ok(text("a\nb")));
    assert_eq!(
        Json::parse(b"[1,[2],{}]"),
        Ok(Json::Array(vec![
            Json::PosInt(1),
            Json::Array(vec![Json::PosInt(2)]),
            Json::Object(vec![])
        ]))
    );
    // Members come out in the order of their keys, the later of two wins.
    assert_eq!(
        Json::parse(b"{\"b\":1,\"a\":2,\"b\":3}"),
        Ok(object(vec![("a", Json::PosInt(2)), ("b", Json::PosInt(3))]))
    );
}

#[test]
fn what_is_no_json_is_refused() {
    assert!(Json::parse(b"").is_err());
    assert!(Json::parse(b"{").is_err());
    assert!(Json::parse(b"[1,]").is_err());
    assert!(Json::parse(b"1 2").is_err());
    assert!(Json::parse(b"nil").is_err());
    assert_eq!(
        Json::parse(b"{oops").unwrap_err().message,
        "key must be a string at line 1 column 2"
    );
}

#[test]
fn invalid_utf8_is_replaced() {
    assert_eq!(Json::parse(b"\"a\xffb\""), Ok(text("a\u{fffd}b")));
}

#[test]
fn evaluate_reaches_the_event_through_the_primitives() {
    let json = Json::parse(br#"{"a":{"b":{"c":5}}}"#).unwrap();
    let returned = |is_false: bool, text: &str| Evaluation::Returned {
        is_false,
        text: text.to_string(),
    };
    assert_eq!(evaluate(lisp::env(&json), "", "(load \"a.b.c\")"), returned(false, "5"));
    assert_eq!(evaluate(lisp::env(&json), "", "(has-key \"a.b.c\")"), returned(false, "T"));
    assert_eq!(evaluate(lisp::env(&json), "", "(has-key \"a.x\")"), returned(true, "F"));
    assert_eq!(evaluate(lisp::env(&json), "", "(has-key \"a.b.c.d\")"), returned(true, "F"));
    assert_eq!(
        evaluate(lisp::env(&json), "", "(load \"a.x\")"),
        Evaluation::Failed {
            message: "Runtime error: No such key Value::String(\"x\")".to_string()
        }
    );
    assert_eq!(
        evaluate(lisp::env(&json), "", "(== (load \"a.b.c\") (+ 2 3))"),
        returned(false, "T")
    );
}

#[test]
fn evaluate_binds_the_event_itself() {
    let json = Json::parse(b"[1,\"two\",null,true,false,2.5]").unwrap();
    assert_eq!(
        evaluate(lisp::env(&json), "", "__input__"),
        Evaluation::Returned { is_false: false, text: "(1 \"two\" NIL T F 2.5)".to_string() }
    );
    assert_eq!(
        evaluate(lisp::env(&Json::Null), "", "__input__"),
        Evaluation::Returned { is_false: false, text: "NIL".to_string() }
    );
    assert_eq!(
        evaluate(lisp::env(&Json::Bool(false)), "", "__input__"),
        Evaluation::Returned { is_false: true, text: "F".to_string() }
    );
    let object = Json::parse(b"{\"k\":{\"n\":-3}}").unwrap();
    assert_eq!(
        evaluate(lisp::env(&object), "", "(hash_get (hash_get __input__ \"k\") \"n\")"),
        Evaluation::Returned { is_false: false, text: "-3".to_string() }
    );
}

#[test]
fn evaluate_runs_init_before_the_program() {
    let json = Json::parse(b"{\"name\":\"kitty\"}").unwrap();
    assert_eq!(
        evaluate(
            lisp::env(&json),
            "(defun named (n) (== (load \"name\") n)) (define other \"foot\")",
            "(named other) (named \"kitty\")"
        ),
        Evaluation::Returned { is_false: false, text: "T".to_string() }
    );
}

#[test]
fn evaluate_wants_a_string_for_a_path() {
    assert_eq!(
        evaluate(lisp::env(&Json::Null), "", "(load 5)"),
        Evaluation::Failed {
            message: "Runtime error: \"load\" requires argument 1 to be a string; got 5"
                .to_string()
        }
    );
    assert_eq!(
        evaluate(lisp::env(&Json::Null), "", "(has-key)"),
        Evaluation::Failed {
            message: "Runtime error: \"has-key\" requires an argument 1".to_string()
        }
    );
}

#[test]
fn evaluate_leaves_out_what_does_not_parse() {
    // The second expression is never closed.
    assert_eq!(
        evaluate(lisp::env(&Json::Null), "", "(+ 1 2) (+ 3"),
        Evaluation::Returned { is_false: false, text: "3".to_string() }
    );
    assert_eq!(
        evaluate(lisp::env(&Json::Null), "", "(+ 1"),
        Evaluation::Failed { message: "Runtime error: Unrecognized expression".to_string() }
    );
    assert_eq!(
        evaluate(lisp::env(&Json::Null), "", ""),
        Evaluation::Failed { message: "Runtime error: Unrecognized expression".to_string() }
    );
}

#[test]
fn parse_program_keeps_what_parses() {
    let printed: Vec<String> =
        parse_program("(load   \"a\")  t 'x (f").iter().map(|v| v.to_string()).collect();
    assert_eq!(printed, vec!["(load \"a\")", "T", "(quote x)"]);
    assert!(parse_program("").is_empty());
    assert!(parse_program("(").is_empty());
}
