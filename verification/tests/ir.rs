//! Expressions: building them, taking them apart, validating them, and
//! sending them through JSON.

use viwo::ir::SExpr;
use viwo::json::parse_expr;
use viwo::validation::{validate, ValidationError};

fn num(x: f64) -> SExpr {
    SExpr::number(x.to_bits())
}

fn number_of(e: &SExpr) -> Option<f64> {
    e.as_number().map(f64::from_bits)
}

/// The JSON value of an expression, as an embedding writes it.
fn to_json(e: &SExpr) -> serde_json::Value {
    match e {
        SExpr::Null => serde_json::Value::Null,
        SExpr::Bool(b) => serde_json::Value::Bool(*b),
        SExpr::Number(bits) => serde_json::Number::from_f64(f64::from_bits(*bits))
            .map(serde_json::Value::Number)
            .unwrap_or(serde_json::Value::Null),
        SExpr::String(s) => serde_json::Value::String(s.clone()),
        SExpr::Object(pairs) => {
            let mut map = serde_json::Map::new();
            for (k, v) in pairs {
                map.insert(k.clone(), to_json(v));
            }
            serde_json::Value::Object(map)
        }
        SExpr::List(items) => serde_json::Value::Array(items.iter().map(to_json).collect()),
    }
}

/// The expression that the library reads from JSON text.
fn parse(json: &str) -> SExpr {
    parse_expr(json).unwrap()
}

#[test]
fn test_sexpr_constructors() {
    assert_eq!(SExpr::null(), SExpr::Null);
    assert_eq!(SExpr::bool(true), SExpr::Bool(true));
    assert_eq!(SExpr::integer(42), SExpr::Number(42.0f64.to_bits()));
    assert_eq!(SExpr::string("hello"), SExpr::String("hello".into()));
}

#[test]
fn test_sexpr_call() {
    let expr = SExpr::call("std.let", vec![SExpr::string("x"), SExpr::integer(10)]);

    assert!(expr.is_call());
    assert_eq!(expr.opcode(), Some("std.let"));

    let args = expr.args().unwrap();
    assert_eq!(args.len(), 2);
    assert_eq!(args[0].as_str(), Some("x"));
    assert_eq!(number_of(&args[1]), Some(10.0));
}

#[test]
fn test_sexpr_accessors() {
    assert_eq!(SExpr::Bool(true).as_bool(), Some(true));
    assert_eq!(number_of(&num(3.14)), Some(3.14));
    assert_eq!(SExpr::String("test".into()).as_str(), Some("test"));

    // The wrong type gives None.
    assert_eq!(number_of(&SExpr::Bool(true)), None);
    assert_eq!(num(42.0).as_str(), None);
}

#[test]
fn test_sexpr_from_impls() {
    let _: SExpr = true.into();
    let _: SExpr = 42i32.into();
    let _: SExpr = 42i64.into();
    let _: SExpr = num(3.14);
    let _: SExpr = "hello".into();
    let _: SExpr = String::from("world").into();
}

#[test]
fn conversions_give_the_literals_that_they_name() {
    assert_eq!(SExpr::from(true), SExpr::Bool(true));
    assert_eq!(SExpr::from(42i32), num(42.0));
    assert_eq!(SExpr::from(-7i64), num(-7.0));
    assert_eq!(SExpr::from("hello"), SExpr::String("hello".to_string()));
    assert_eq!(SExpr::from(String::from("world")), SExpr::String("world".to_string()));
    assert_eq!(SExpr::default(), SExpr::Null);
}

#[test]
fn lists_that_do_not_start_with_a_string_are_not_calls() {
    let literal = SExpr::list(vec![num(1.0), SExpr::string("x")]);
    assert!(!literal.is_call());
    assert_eq!(literal.opcode(), None);
    assert!(literal.args().is_none());
    assert_eq!(literal.as_list().unwrap().len(), 2);

    let empty = SExpr::list(vec![]);
    assert!(!empty.is_call());
    assert!(empty.args().is_none());

    let bare = SExpr::call("std.break", vec![]);
    assert!(bare.is_call());
    assert_eq!(bare.args().unwrap().len(), 0);

    assert!(SExpr::Null.is_null());
    assert!(!SExpr::Bool(false).is_null());
    assert!(SExpr::Null.as_list().is_none());
    assert!(SExpr::Null.as_object().is_none());
    let object = SExpr::Object(vec![("k".to_string(), SExpr::Null)]);
    assert_eq!(object.as_object().unwrap().len(), 1);
    assert_eq!(object.clone(), object);
}

#[test]
fn test_sexpr_json_roundtrip() {
    let expr = SExpr::call(
        "std.seq",
        vec![
            SExpr::call("std.let", vec![SExpr::string("x"), SExpr::integer(10)]),
            SExpr::call(
                "math.add",
                vec![
                    SExpr::call("std.var", vec![SExpr::string("x")]),
                    SExpr::integer(5),
                ],
            ),
        ],
    );

    let json = serde_json::to_string(&to_json(&expr)).unwrap();
    let parsed = parse(&json);

    assert_eq!(expr, parsed);
}

#[test]
fn test_sexpr_parse_from_json() {
    let json = r#"["std.if", true, ["std.let", "x", 1], ["std.let", "x", 2]]"#;
    let expr = parse(json);

    assert_eq!(expr.opcode(), Some("std.if"));
    let args = expr.args().unwrap();
    assert_eq!(args.len(), 3);
    assert_eq!(args[0].as_bool(), Some(true));
}

#[test]
fn test_sexpr_parse_object() {
    let json = r#"{"name": "test", "value": 42}"#;
    let expr = parse(json);

    let obj = expr.as_object().unwrap();
    let get = |key: &str| obj.iter().find(|(k, _)| k == key).map(|(_, v)| v);
    assert_eq!(get("name").and_then(|v| v.as_str()), Some("test"));
    assert_eq!(get("value").and_then(number_of), Some(42.0));
}

#[test]
fn test_sexpr_null_handling() {
    let json = "null";
    let expr = parse(json);
    assert!(expr.is_null());

    // Null in a list.
    let json = r#"["std.let", "x", null]"#;
    let expr = parse(json);
    let args = expr.args().unwrap();
    assert!(args[1].is_null());
}

#[test]
fn test_validate_literals() {
    assert!(validate(&SExpr::Null).is_ok());
    assert!(validate(&SExpr::Bool(true)).is_ok());
    assert!(validate(&num(42.0)).is_ok());
    assert!(validate(&SExpr::String("hello".into())).is_ok());
}

#[test]
fn test_validate_opcode_call() {
    let expr = SExpr::call("std.let", vec![SExpr::string("x"), SExpr::integer(10)]);
    assert!(validate(&expr).is_ok());
}

#[test]
fn test_validate_nested() {
    let expr = SExpr::call(
        "std.seq",
        vec![
            SExpr::call("std.let", vec![SExpr::string("x"), SExpr::integer(10)]),
            SExpr::call(
                "math.add",
                vec![
                    SExpr::call("std.var", vec![SExpr::string("x")]),
                    SExpr::integer(5),
                ],
            ),
        ],
    );
    assert!(validate(&expr).is_ok());
}

#[test]
fn every_shape_is_a_program() {
    let odd = SExpr::list(vec![
        SExpr::list(vec![]),
        SExpr::Object(vec![("k".to_string(), SExpr::list(vec![SExpr::Null]))]),
        SExpr::call("no.such.opcode", vec![SExpr::call("", vec![])]),
    ]);
    assert!(validate(&odd).is_ok());
}

#[test]
fn validation_errors_describe_themselves() {
    assert_eq!(
        ValidationError::UnknownOpcode("x.y".to_string()).message(),
        "unknown opcode: x.y"
    );
    assert_eq!(
        ValidationError::InvalidArgCount { opcode: "std.if".to_string(), expected: 2, got: 10 }
            .message(),
        "invalid argument count for std.if: expected 2, got 10"
    );
    assert_eq!(
        ValidationError::InvalidArgType {
            opcode: "str.len".to_string(),
            position: 0,
            expected: "string".to_string()
        }
        .message(),
        "invalid argument type for str.len at position 0: expected string"
    );
    assert_eq!(ValidationError::EmptyCall.message(), "empty opcode call");
    assert_eq!(
        ValidationError::InvalidOpcodeName.message(),
        "opcode name must be a string"
    );
}

#[test]
fn parse_expr_reads_numbers_as_doubles_and_refuses_what_is_not_json() {
    assert_eq!(parse_expr("42").unwrap(), num(42.0));
    assert_eq!(parse_expr("-7").unwrap(), num(-7.0));
    assert_eq!(parse_expr("0.5").unwrap(), num(0.5));
    assert_eq!(parse_expr("1e300").unwrap(), num(1e300));
    assert_eq!(
        parse_expr(r#"["math.add", 1, [2.5, "x"], {"k": false}]"#).unwrap(),
        SExpr::List(vec![
            SExpr::string("math.add"),
            num(1.0),
            SExpr::List(vec![num(2.5), SExpr::string("x")]),
            SExpr::Object(vec![("k".to_string(), SExpr::Bool(false))]),
        ])
    );
    assert!(parse_expr("[1, 2").is_err());
    assert!(parse_expr("").is_err());
}
