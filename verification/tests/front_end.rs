//! From TypeScript source to a value: parse, transpile, evaluate.

use viwo::ir::SExpr;
use viwo::number::Number;
use viwo::runtime::execute;
use viwo::syntax::SyntaxNode;
use viwo::transpile::{binary_opcode, transpile, transpile_node, unescape, TranspileError};
use viwo::value::SValue;

/// The library's tree for a parser's node.
fn convert(node: tree_sitter::Node, source: &str, field: Option<&str>) -> SyntaxNode {
    let text = node.utf8_text(source.as_bytes()).unwrap_or("").to_string();
    let mut children = Vec::new();
    let mut cursor = node.walk();
    if cursor.goto_first_child() {
        loop {
            children.push(convert(cursor.node(), source, cursor.field_name()));
            if !cursor.goto_next_sibling() {
                break;
            }
        }
    }
    let number = if node.kind() == "number" {
        text.parse::<f64>().ok().map(f64::to_bits)
    } else {
        None
    };
    SyntaxNode {
        kind: node.kind().to_string(),
        text,
        named: node.is_named(),
        error: node.has_error(),
        field: field.map(|f| f.to_string()),
        number,
        children,
    }
}

fn parse(source: &str) -> SyntaxNode {
    let mut parser = tree_sitter::Parser::new();
    let language = tree_sitter_typescript::LANGUAGE_TYPESCRIPT;
    parser.set_language(&language.into()).unwrap();
    let tree = parser.parse(source, None).unwrap();
    convert(tree.root_node(), source, None)
}

fn transpile_source(source: &str) -> Result<SExpr, TranspileError> {
    transpile(&parse(source))
}

/// Runs TypeScript through the whole pipeline.
fn eval_ts(source: &str) -> SValue {
    let sexpr = transpile_source(source).expect("transpile failed");
    execute(&sexpr).expect("execute failed")
}

fn as_f64(v: &SValue) -> Option<f64> {
    match v {
        SValue::Number(Number::Int(n)) => Some(*n as f64),
        SValue::Number(Number::Float(bits)) => Some(f64::from_bits(*bits)),
        _ => None,
    }
}

fn assert_num(actual: SValue, expected: f64) {
    let n = as_f64(&actual).expect("expected number");
    assert!(
        (n - expected).abs() < f64::EPSILON,
        "expected {}, got {}",
        expected,
        n
    );
}

fn num(x: f64) -> SExpr {
    SExpr::number(x.to_bits())
}

fn var(name: &str) -> SExpr {
    SExpr::call("std.var", vec![SExpr::string(name)])
}

#[test]
fn test_arithmetic() {
    assert_num(eval_ts("1 + 2"), 3.0);
    assert_num(eval_ts("10 - 3"), 7.0);
    assert_num(eval_ts("4 * 5"), 20.0);
    assert_num(eval_ts("15 / 3"), 5.0);
    assert_num(eval_ts("17 % 5"), 2.0);
}

#[test]
fn test_nested_arithmetic() {
    assert_num(eval_ts("(1 + 2) * 3"), 9.0);
    assert_num(eval_ts("10 / (2 + 3)"), 2.0);
}

#[test]
fn test_variables() {
    assert_num(eval_ts("let x = 10; x"), 10.0);
    assert_num(eval_ts("let x = 5; let y = 3; x + y"), 8.0);
}

#[test]
fn test_comparison() {
    assert_eq!(eval_ts("5 > 3"), SValue::Bool(true));
    assert_eq!(eval_ts("2 < 1"), SValue::Bool(false));
    assert_eq!(eval_ts("5 >= 5"), SValue::Bool(true));
    assert_eq!(eval_ts("5 == 5"), SValue::Bool(true));
}

#[test]
fn test_logical_operators() {
    assert_eq!(eval_ts("true && true"), SValue::Bool(true));
    assert_eq!(eval_ts("true && false"), SValue::Bool(false));
    assert_eq!(eval_ts("false || true"), SValue::Bool(true));
    assert_eq!(eval_ts("!true"), SValue::Bool(false));
}

#[test]
fn test_string_literals() {
    assert_eq!(eval_ts("\"hello\""), SValue::string("hello"));
    assert_eq!(eval_ts("'world'"), SValue::string("world"));
}

#[test]
fn test_boolean_literals() {
    assert_eq!(eval_ts("true"), SValue::Bool(true));
    assert_eq!(eval_ts("false"), SValue::Bool(false));
}

#[test]
fn test_null() {
    assert_eq!(eval_ts("null"), SValue::Null);
}

#[test]
fn test_arrays() {
    let result = eval_ts("[1, 2, 3]");
    let arr = match &result {
        SValue::Array(items) => items,
        _ => panic!("expected array"),
    };
    assert_eq!(arr.len(), 3);
    assert_num(arr[0].clone(), 1.0);
    assert_num(arr[1].clone(), 2.0);
    assert_num(arr[2].clone(), 3.0);
}

#[test]
fn test_objects() {
    let result = eval_ts("{ x: 1, y: 2 }");
    let obj = match &result {
        SValue::Object(_) => &result,
        _ => panic!("expected object"),
    };
    assert_num(obj.get("x").unwrap().clone(), 1.0);
    assert_num(obj.get("y").unwrap().clone(), 2.0);
}

#[test]
fn an_object_literal_becomes_obj_new_with_flat_pairs() {
    let got = transpile_source("({ x: 1, 'y': 2, z })").unwrap();
    assert_eq!(
        got,
        SExpr::call(
            "obj.new",
            vec![
                SExpr::string("x"),
                num(1.0),
                SExpr::string("y"),
                num(2.0),
                SExpr::string("z"),
                var("z"),
            ]
        )
    );
    let value = eval_ts("({ x: 1, y: 2 })");
    assert_num(value.get("x").unwrap().clone(), 1.0);
    assert_num(value.get("y").unwrap().clone(), 2.0);
}

#[test]
fn statements_and_expressions_become_opcodes() {
    assert_eq!(
        transpile_source("let x = 1, y;").unwrap(),
        SExpr::call(
            "std.seq",
            vec![
                SExpr::call("std.let", vec![SExpr::string("x"), num(1.0)]),
                SExpr::call("std.let", vec![SExpr::string("y"), SExpr::Null]),
            ]
        )
    );
    assert_eq!(
        transpile_source("a.b[0]").unwrap(),
        SExpr::call(
            "list.get",
            vec![
                SExpr::call("obj.get", vec![var("a"), SExpr::string("b")]),
                num(0.0),
            ]
        )
    );
    assert_eq!(
        transpile_source("fs.read(p, -1)").unwrap(),
        SExpr::call(
            "fs.read",
            vec![var("p"), SExpr::call("math.neg", vec![num(1.0)])]
        )
    );
    assert_eq!(
        transpile_source("c ? 1 : 2").unwrap(),
        SExpr::call("std.if", vec![var("c"), num(1.0), num(2.0)])
    );
    assert_eq!(
        transpile_source("if (c) { 1 } else { 2; 3 }").unwrap(),
        SExpr::call(
            "std.if",
            vec![
                var("c"),
                num(1.0),
                SExpr::call("std.seq", vec![num(2.0), num(3.0)]),
            ]
        )
    );
    assert_eq!(
        transpile_source("if (c) { }").unwrap(),
        SExpr::call("std.if", vec![var("c"), SExpr::Null])
    );
    assert_eq!(
        transpile_source("(a, b) => a ** b").unwrap(),
        SExpr::call(
            "std.fn",
            vec![
                SExpr::list(vec![SExpr::string("a"), SExpr::string("b")]),
                SExpr::call("math.pow", vec![var("a"), var("b")]),
            ]
        )
    );
    assert_eq!(
        transpile_source("x => +x").unwrap(),
        SExpr::call("std.fn", vec![SExpr::list(vec![SExpr::string("x")]), var("x")])
    );
    assert_eq!(transpile_source("undefined").unwrap(), SExpr::Null);
    assert_eq!(transpile_source("").unwrap(), SExpr::call("std.seq", vec![]));
}

#[test]
fn what_cannot_be_transpiled_is_reported() {
    assert_eq!(
        transpile_source("1 +"),
        Err(TranspileError::Parse("syntax error in source".to_string()))
    );
    assert_eq!(
        transpile_source("a & b"),
        Err(TranspileError::Unsupported("operator '&'".to_string()))
    );
    assert_eq!(
        transpile_source("~a"),
        Err(TranspileError::Unsupported("unary operator '~'".to_string()))
    );
    assert_eq!(
        transpile_source("while (a) { }"),
        Err(TranspileError::Unsupported(
            "node type 'while_statement': while (a) { }".to_string()
        ))
    );
    assert_eq!(
        transpile_source("f()()"),
        Err(TranspileError::Unsupported(
            "call target type 'call_expression'".to_string()
        ))
    );
    assert_eq!(
        TranspileError::Parse("x".to_string()).message(),
        "parse error: x"
    );
    assert_eq!(
        TranspileError::UnexpectedNode { expected: "a".to_string(), got: "b".to_string() }.message(),
        "expected a, got b"
    );
}

#[test]
fn a_tree_built_by_hand_transpiles_too() {
    let mut number = SyntaxNode::leaf("number", "4.5", true);
    number.number = Some(4.5f64.to_bits());
    assert_eq!(transpile_node(&number), Ok(num(4.5)));
    let bad = SyntaxNode::leaf("number", "4.5.6", true);
    assert_eq!(
        transpile_node(&bad),
        Err(TranspileError::Parse("invalid number: 4.5.6".to_string()))
    );
    let mut empty = SyntaxNode::leaf("parenthesized_expression", "()", true);
    empty.children.push(SyntaxNode::leaf("(", "(", false));
    empty.children.push(SyntaxNode::leaf(")", ")", false));
    assert_eq!(
        transpile_node(&empty),
        Err(TranspileError::Parse("empty parenthesized expression".to_string()))
    );
    let binary = SyntaxNode::leaf("binary_expression", "1 + 2", true);
    assert_eq!(
        transpile_node(&binary),
        Err(TranspileError::Parse("binary_expression missing left".to_string()))
    );
}

#[test]
fn operators_and_escapes() {
    assert_eq!(binary_opcode("==="), Some("bool.eq"));
    assert_eq!(binary_opcode("!=="), Some("bool.neq"));
    assert_eq!(binary_opcode("<="), Some("bool.lte"));
    assert_eq!(binary_opcode("||"), Some("bool.or"));
    assert_eq!(binary_opcode("&"), None);
    assert_eq!(unescape("\"a\\nb\""), "a\nb");
    assert_eq!(unescape("'it\\'s'"), "it's");
    assert_eq!(unescape("`t\\tq\\\"`"), "t\tq\"");
    assert_eq!(unescape("\"back\\\\slash\""), "back\\slash");
    // The escapes are replaced one kind after the other: a backslash
    // before `\n` does not protect it.
    assert_eq!(unescape("\"\\\\n\""), "\\\n");
    assert_eq!(unescape("plain"), "plain");
    assert_eq!(unescape("\""), "\"");
}
