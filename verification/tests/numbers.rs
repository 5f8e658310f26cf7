//! Numbers: doubles as bit patterns, and the arithmetic that is exact.

use viwo::builtins::{
    list_get, list_len, obj_get, obj_keys, obj_set, str_concat, str_len, str_slice, truthy,
};
use viwo::error::ExecutionError;
use viwo::loader::{plugin_name, PluginError, PluginLoader};
use viwo::number::{Comparison, MathOp, Number};
use viwo::opcode::{core_libraries, parse_opcode, Opcode};
use viwo::storage::StorageError;
use viwo::text::{starts_with, str_eq, to_chars};
use viwo::value::SValue;

fn integer(n: i64) -> SValue {
    SValue::Number(Number::Int(n))
}

fn float(x: f64) -> Number {
    Number::Float(x.to_bits())
}

const LIMIT: i64 = 9_007_199_254_740_992;

#[test]
fn safe_integers_are_recognised_in_doubles() {
    for n in [0i64, 1, -1, 2, 3, 42, -42, 255, 1 << 20, LIMIT - 1, -(LIMIT - 1)] {
        assert_eq!(Number::from_bits((n as f64).to_bits()), Number::Int(n), "{}", n);
    }
    for x in [0.5, -0.5, 1.5, 1e-300, 3.14, 1e300, LIMIT as f64, f64::INFINITY, f64::MIN_POSITIVE] {
        assert_eq!(Number::from_bits(x.to_bits()), float(x), "{}", x);
    }
    // Negative zero is not the integer 0.
    assert_eq!(Number::from_bits((-0.0f64).to_bits()), float(-0.0));
    assert!(matches!(Number::from_bits(f64::NAN.to_bits()), Number::Float(_)));
    assert_eq!(float(7.0).normalized(), Number::Int(7));
    assert_eq!(float(7.5).normalized(), float(7.5));
    assert_eq!(Number::Int(LIMIT).to_integer(), None);
    assert_eq!(Number::Int(LIMIT - 1).to_integer(), Some(LIMIT - 1));
}

#[test]
fn the_double_nearest_to_an_integer() {
    for n in [
        0i64,
        1,
        -1,
        2,
        3,
        1023,
        1024,
        LIMIT - 1,
        LIMIT,
        LIMIT + 1,
        LIMIT + 2,
        LIMIT + 3,
        -(LIMIT + 1),
        (1 << 62) + 1,
        i64::MAX,
        i64::MAX - 1,
        i64::MIN,
        i64::MIN + 1,
        0x7fff_ffff_ffff_fc00,
        0x7fff_ffff_ffff_fbff,
        0x20_0000_0000_0003,
        0x40_0000_0000_0002,
        0x40_0000_0000_0006,
    ] {
        assert_eq!(Number::bits_of(n), (n as f64).to_bits(), "{}", n);
    }
}

#[test]
fn arithmetic_is_exact_or_left_alone() {
    let int = |n| Number::Int(n);
    assert_eq!(Number::exact(MathOp::Add, int(1), int(2)), Some(int(3)));
    assert_eq!(Number::exact(MathOp::Sub, int(10), int(3)), Some(int(7)));
    assert_eq!(Number::exact(MathOp::Mul, int(4), int(5)), Some(int(20)));
    assert_eq!(Number::exact(MathOp::Mul, int(-4), int(5)), Some(int(-20)));
    assert_eq!(Number::exact(MathOp::Div, int(15), int(3)), Some(int(5)));
    assert_eq!(Number::exact(MathOp::Mod, int(17), int(5)), Some(int(2)));
    assert_eq!(Number::exact(MathOp::Add, float(1.0), float(2.0)), Some(int(3)));
    // What has no exact integer result is left to the host.
    assert_eq!(Number::exact(MathOp::Div, int(1), int(2)), None);
    assert_eq!(Number::exact(MathOp::Div, int(1), int(0)), None);
    assert_eq!(Number::exact(MathOp::Div, int(-4), int(2)), Some(int(-2)));
    assert_eq!(Number::exact(MathOp::Div, int(-3), int(2)), None);
    assert_eq!(Number::exact(MathOp::Mod, int(-1), int(5)), None);
    assert_eq!(Number::exact(MathOp::Mod, int(1), int(0)), None);
    assert_eq!(Number::exact(MathOp::Pow, int(2), int(3)), None);
    assert_eq!(Number::exact(MathOp::Add, float(0.5), int(1)), None);
    assert_eq!(Number::exact(MathOp::Add, int(LIMIT - 1), int(1)), None);
    assert_eq!(Number::exact(MathOp::Add, int(LIMIT - 2), int(1)), Some(int(LIMIT - 1)));
    assert_eq!(Number::exact(MathOp::Mul, int(1 << 30), int(1 << 30)), None);
    // A product that is zero with a negative factor is negative zero.
    assert_eq!(Number::exact(MathOp::Mul, int(0), int(-5)), None);
    assert_eq!(Number::exact(MathOp::Mul, int(0), int(5)), Some(int(0)));

    assert_eq!(Number::exact_compare(int(1), int(2)), Some(Comparison::Less));
    assert_eq!(Number::exact_compare(int(2), float(2.0)), Some(Comparison::Equal));
    assert_eq!(Number::exact_compare(int(3), int(2)), Some(Comparison::Greater));
    assert_eq!(Number::exact_compare(float(0.5), int(2)), None);
}

#[test]
fn strings_lists_and_objects() {
    let hello = SValue::string("héllo");
    assert_eq!(str_len(&hello).unwrap(), integer(5));
    assert!(matches!(str_len(&integer(1)), Err(ExecutionError::TypeError(_))));
    assert_eq!(
        str_concat(&vec![SValue::string("n="), integer(-12), SValue::string("!")]).unwrap(),
        SValue::string("n=-12!")
    );
    assert_eq!(str_concat(&vec![]).unwrap(), SValue::string(""));
    assert!(matches!(
        str_concat(&vec![SValue::string("a"), SValue::Null]),
        Err(ExecutionError::TypeError(_))
    ));
    let slice = |from: i64, to: SValue| str_slice(&hello, &integer(from), &to).unwrap();
    assert_eq!(slice(1, integer(4)), SValue::string("éll"));
    assert_eq!(slice(1, SValue::Null), SValue::string("éllo"));
    assert_eq!(slice(-3, integer(99)), SValue::string("héllo"));
    assert_eq!(slice(4, integer(2)), SValue::string(""));
    assert_eq!(slice(5, integer(5)), SValue::string(""));
    assert!(matches!(
        str_slice(&hello, &SValue::string("1"), &SValue::Null),
        Err(ExecutionError::TypeError(_))
    ));

    let list = SValue::Array(vec![integer(10), integer(20)]);
    assert_eq!(list_len(&list).unwrap(), integer(2));
    assert_eq!(list_get(&list, &integer(1)).unwrap(), integer(20));
    assert_eq!(list_get(&list, &SValue::Number(float(0.0))).unwrap(), integer(10));
    assert_eq!(list_get(&list, &integer(2)).unwrap(), SValue::Null);
    assert_eq!(list_get(&list, &integer(-1)).unwrap(), SValue::Null);
    assert!(matches!(
        list_get(&list, &SValue::Number(float(0.5))),
        Err(ExecutionError::TypeError(_))
    ));

    let object = SValue::Object(vec![
        ("a".to_string(), integer(1)),
        ("b".to_string(), integer(2)),
    ]);
    assert_eq!(obj_get(&object, &SValue::string("b")).unwrap(), integer(2));
    assert_eq!(obj_get(&object, &SValue::string("z")).unwrap(), SValue::Null);
    assert!(matches!(obj_get(&list, &SValue::string("a")), Err(ExecutionError::TypeError(_))));
    let changed = obj_set(&object, &SValue::string("a"), integer(9)).unwrap();
    assert_eq!(
        changed,
        SValue::Object(vec![("a".to_string(), integer(9)), ("b".to_string(), integer(2))])
    );
    let grown = obj_set(&object, &SValue::string("c"), integer(3)).unwrap();
    assert_eq!(
        obj_keys(&grown).unwrap(),
        SValue::Array(vec![SValue::string("a"), SValue::string("b"), SValue::string("c")])
    );
    // The object that was given is as it was.
    assert_eq!(obj_get(&object, &SValue::string("a")).unwrap(), integer(1));

    assert!(!truthy(&SValue::Null));
    assert!(!truthy(&SValue::Bool(false)));
    assert!(truthy(&SValue::Bool(true)));
    assert!(truthy(&integer(0)));
    assert!(truthy(&SValue::string("")));
}

#[test]
fn values_know_what_they_are() {
    let data = SValue::Object(vec![(
        "list".to_string(),
        SValue::Array(vec![integer(1), SValue::string("x"), SValue::Null]),
    )]);
    assert!(data.is_data());
    assert!(data.same(&data.clone()));
    assert!(!data.same(&SValue::object()));
    let with_function = SValue::Array(vec![integer(1), SValue::Array(vec![SValue::Function(3)])]);
    assert!(!with_function.is_data());
    assert!(with_function.same(&with_function.clone()));
    // The last pair of a key is the one that counts.
    let twice = SValue::Object(vec![
        ("k".to_string(), integer(1)),
        ("k".to_string(), integer(2)),
    ]);
    assert_eq!(twice.get("k"), Some(&integer(2)));
    assert_eq!(SValue::integer(5).as_i64(), Some(5));
    assert_eq!(SValue::Number(float(5.0)).as_i64(), None);
    assert_eq!(SValue::string("s").as_str(), Some("s"));
    assert_eq!(SValue::Bool(true).as_bool(), Some(true));
    assert_eq!(SValue::Array(vec![]).as_array().map(|a| a.len()), Some(0));
    assert!(SValue::Null.get("k").is_none());
}

#[test]
fn opcodes_by_name() {
    assert_eq!(parse_opcode("std.seq"), Some(Opcode::StdSeq));
    assert_eq!(parse_opcode("std.fn"), Some(Opcode::StdFn));
    assert_eq!(parse_opcode("std.lambda"), Some(Opcode::StdFn));
    assert_eq!(parse_opcode("math.mod"), Some(Opcode::Math(MathOp::Mod)));
    assert_eq!(parse_opcode("call"), Some(Opcode::Call));
    assert_eq!(parse_opcode("fs.read"), None);
    assert_eq!(parse_opcode(""), None);
    assert_eq!(
        core_libraries(),
        vec!["std", "list", "obj", "str", "math", "time", "bool"]
    );
}

#[test]
fn text_helpers() {
    assert!(str_eq("", ""));
    assert!(str_eq("héllo", "héllo"));
    assert!(!str_eq("hello", "hellp"));
    assert!(!str_eq("hello", "hell"));
    assert!(starts_with("https://a.b/c", "https://a.b"));
    assert!(starts_with("abc", ""));
    assert!(!starts_with("ab", "abc"));
    assert!(!starts_with("abd", "abc"));
    assert_eq!(to_chars("hé"), vec!['h', 'é']);
    let mut s = String::from("n=");
    viwo::text::push_signed(&mut s, i64::MIN);
    assert_eq!(s, "n=-9223372036854775808");
    let mut s = String::new();
    viwo::text::push_unsigned(&mut s, 0);
    viwo::text::push_unsigned(&mut s, 1234567890);
    assert_eq!(s, "01234567890");
}

#[test]
fn errors_describe_themselves() {
    assert_eq!(
        ExecutionError::VerbNotFound { entity: 3, verb: "go".to_string() }.message(),
        "verb 'go' not found on entity 3"
    );
    assert_eq!(ExecutionError::EntityNotFound(-2).message(), "entity not found: -2");
    assert_eq!(
        ExecutionError::MissingCapability("fs.read".to_string()).message(),
        "missing capability: fs.read"
    );
    assert_eq!(
        ExecutionError::PluginError("fs: no".to_string()).message(),
        "plugin error: fs: no"
    );
    assert_eq!(
        ExecutionError::Storage(StorageError::Database("locked".to_string())).message(),
        "database error: locked"
    );
    assert_eq!(StorageError::IdsExhausted.message(), "no id is left");
    assert_eq!(ExecutionError::BudgetExceeded.message(), "execution budget exceeded");
    assert_eq!(
        ExecutionError::TypeError("x".to_string()).message(),
        "type error: x"
    );
    assert_eq!(
        ExecutionError::ScriptThrow(SValue::Null).message(),
        "uncaught script error"
    );
    assert_eq!(
        PluginError::NotFound("fs".to_string()).message(),
        "plugin not found: fs"
    );
    assert_eq!(
        PluginError::LoadError("x".to_string()).message(),
        "failed to load library: x"
    );
    assert_eq!(
        PluginError::InitError("x".to_string()).message(),
        "plugin initialization failed: x"
    );
}

#[test]
fn plugins_are_named_after_their_files() {
    assert_eq!(plugin_name("target/debug/libviwo_plugin_fs.so"), "libviwo_plugin_fs");
    assert_eq!(plugin_name("plugin.so"), "plugin");
    assert_eq!(plugin_name("/a/b/x.tar.gz"), "x.tar");
    assert_eq!(plugin_name("/a/b/.hidden"), ".hidden");
    assert_eq!(plugin_name("/a.b/noext"), "noext");
    assert_eq!(plugin_name("dir/"), "unknown");
    assert_eq!(plugin_name(""), "unknown");

    let mut loader = PluginLoader::new();
    assert_eq!(loader.count(), 0);
    assert_eq!(loader.loaded("plugins/libfs.so"), "libfs");
    assert_eq!(loader.loaded("plugins/libnet.so"), "libnet");
    assert_eq!(loader.count(), 2);
    assert_eq!(loader.plugin_names(), vec!["libfs", "libnet"]);
    assert_eq!(PluginLoader::default().count(), 0);
}

#[test]
fn a_quotient_is_exact_where_the_divisor_divides() {
    let div = |a: i64, b: i64| Number::exact(MathOp::Div, Number::Int(a), Number::Int(b));
    assert_eq!(div(12, 4), Some(Number::Int(3)));
    assert_eq!(div(-12, 4), Some(Number::Int(-3)));
    assert_eq!(div(12, -4), Some(Number::Int(-3)));
    assert_eq!(div(-12, -4), Some(Number::Int(3)));
    assert_eq!(div(0, 4), Some(Number::Int(0)));
    // Negative zero, a remainder, and a zero divisor are for doubles.
    assert_eq!(div(0, -4), None);
    assert_eq!(div(-7, 2), None);
    assert_eq!(div(7, 0), None);
    assert_eq!(div(0, 0), None);
    let rem = |a: i64, b: i64| Number::exact(MathOp::Mod, Number::Int(a), Number::Int(b));
    assert_eq!(rem(7, 3), Some(Number::Int(1)));
    assert_eq!(rem(-7, 3), None);
    assert_eq!(rem(7, -3), None);
    assert_eq!(Number::exact(MathOp::Pow, Number::Int(2), Number::Int(3)), None);
}
