//! How verbs run: loops, jumps, throws, variables, strings and lists.

use viwo::eval::{ExactHost, Door};
use viwo::ir::SExpr;
use viwo::number::Number;
use viwo::runtime::ViwoRuntime;
use viwo::storage::WorldStorage;
use viwo::value::SValue;

fn num(x: f64) -> SExpr {
    SExpr::number(x.to_bits())
}

fn as_f64(v: &SValue) -> Option<f64> {
    match v {
        SValue::Number(Number::Int(n)) => Some(*n as f64),
        SValue::Number(Number::Float(bits)) => Some(f64::from_bits(*bits)),
        _ => None,
    }
}

fn as_str(v: &SValue) -> Option<&str> {
    match v {
        SValue::String(s) => Some(s.as_str()),
        _ => None,
    }
}

fn as_array(v: &SValue) -> Option<&Vec<SValue>> {
    match v {
        SValue::Array(items) => Some(items),
        _ => None,
    }
}

/// A runtime with one entity.
fn setup_entity() -> (ViwoRuntime, i64) {
    let storage = WorldStorage::in_memory().unwrap();
    let mut runtime = ViwoRuntime::new(storage);
    let props = SValue::Object(vec![("name".to_string(), SValue::string("Test"))]);
    let entity_id = runtime.storage.create_entity(props, None).unwrap();
    (runtime, entity_id)
}

fn run(verb: &SExpr) -> SValue {
    let (mut runtime, entity_id) = setup_entity();
    runtime.storage.add_verb(entity_id, "test", verb).unwrap();
    runtime
        .execute_verb(&mut Door::new(ExactHost {}), entity_id, "test", vec![], None)
        .unwrap()
}

fn var(name: &str) -> SExpr {
    SExpr::call("std.var", vec![SExpr::string(name)])
}

fn one_to_five() -> SExpr {
    SExpr::call(
        "list.new",
        vec![num(1.0), num(2.0), num(3.0), num(4.0), num(5.0)],
    )
}

#[test]
fn test_break_in_for_loop() {
    // sum = 0; for x in [1, 2, 3, 4, 5] { if (x > 3) break; sum += x; } return sum;
    let verb = SExpr::call(
        "std.seq",
        vec![
            SExpr::call("std.let", vec![SExpr::string("sum"), num(0.0)]),
            SExpr::call(
                "std.for",
                vec![
                    SExpr::string("x"),
                    one_to_five(),
                    SExpr::call(
                        "std.seq",
                        vec![
                            SExpr::call(
                                "std.if",
                                vec![
                                    SExpr::call("bool.gt", vec![var("x"), num(3.0)]),
                                    SExpr::call("std.break", vec![]),
                                ],
                            ),
                            SExpr::call(
                                "std.set",
                                vec![
                                    SExpr::string("sum"),
                                    SExpr::call("math.add", vec![var("sum"), var("x")]),
                                ],
                            ),
                        ],
                    ),
                ],
            ),
            var("sum"),
        ],
    );

    let result = run(&verb);
    assert_eq!(as_f64(&result).unwrap(), 6.0); // 1 + 2 + 3
}

#[test]
fn test_break_in_while_loop() {
    // i = 0; while (true) { i++; if (i > 3) break; } return i;
    let verb = SExpr::call(
        "std.seq",
        vec![
            SExpr::call("std.let", vec![SExpr::string("i"), num(0.0)]),
            SExpr::call(
                "std.while",
                vec![
                    SExpr::Bool(true),
                    SExpr::call(
                        "std.seq",
                        vec![
                            SExpr::call(
                                "std.set",
                                vec![
                                    SExpr::string("i"),
                                    SExpr::call("math.add", vec![var("i"), num(1.0)]),
                                ],
                            ),
                            SExpr::call(
                                "std.if",
                                vec![
                                    SExpr::call("bool.gt", vec![var("i"), num(3.0)]),
                                    SExpr::call("std.break", vec![]),
                                ],
                            ),
                        ],
                    ),
                ],
            ),
            var("i"),
        ],
    );

    let result = run(&verb);
    assert_eq!(as_f64(&result).unwrap(), 4.0);
}

#[test]
fn test_continue_in_for_loop() {
    // sum = 0; for x in [1, 2, 3, 4, 5] { if (x == 3) continue; sum += x; } return sum;
    let verb = SExpr::call(
        "std.seq",
        vec![
            SExpr::call("std.let", vec![SExpr::string("sum"), num(0.0)]),
            SExpr::call(
                "std.for",
                vec![
                    SExpr::string("x"),
                    one_to_five(),
                    SExpr::call(
                        "std.seq",
                        vec![
                            SExpr::call(
                                "std.if",
                                vec![
                                    SExpr::call("bool.eq", vec![var("x"), num(3.0)]),
                                    SExpr::call("std.continue", vec![]),
                                ],
                            ),
                            SExpr::call(
                                "std.set",
                                vec![
                                    SExpr::string("sum"),
                                    SExpr::call("math.add", vec![var("sum"), var("x")]),
                                ],
                            ),
                        ],
                    ),
                ],
            ),
            var("sum"),
        ],
    );

    let result = run(&verb);
    assert_eq!(as_f64(&result).unwrap(), 12.0); // 1 + 2 + 4 + 5
}

#[test]
fn test_try_catch() {
    // try { throw "error" } catch { return "caught" }
    let verb = SExpr::call(
        "std.try",
        vec![
            SExpr::call("std.throw", vec![SExpr::string("oops")]),
            SExpr::string("err"),
            SExpr::string("caught"),
        ],
    );

    let result = run(&verb);
    assert_eq!(as_str(&result).unwrap(), "caught");
}

#[test]
fn test_try_catch_with_error_variable() {
    // try { throw "error message" } catch(err) { return err }
    let verb = SExpr::call(
        "std.try",
        vec![
            SExpr::call("std.throw", vec![SExpr::string("error message")]),
            SExpr::string("err"),
            var("err"),
        ],
    );

    let result = run(&verb);
    assert_eq!(as_str(&result).unwrap(), "error message");
}

#[test]
fn test_try_no_error() {
    // try { return "ok" } catch { return "bad" }
    let verb = SExpr::call(
        "std.try",
        vec![
            SExpr::string("ok"),
            SExpr::string("err"),
            SExpr::string("bad"),
        ],
    );

    let result = run(&verb);
    assert_eq!(as_str(&result).unwrap(), "ok");
}

#[test]
fn test_if_without_else_returns_null() {
    // if (false) { "then" } // no else branch
    let verb = SExpr::call("std.if", vec![SExpr::Bool(false), SExpr::string("then")]);

    let result = run(&verb);
    assert!(result.is_null());
}

#[test]
fn test_comparisons() {
    // The results of four comparisons, as a list.
    let verb = SExpr::call(
        "list.new",
        vec![
            SExpr::call("bool.neq", vec![num(1.0), num(2.0)]),
            SExpr::call("bool.lt", vec![num(1.0), num(2.0)]),
            SExpr::call("bool.gte", vec![num(2.0), num(2.0)]),
            SExpr::call("bool.lte", vec![num(2.0), num(2.0)]),
        ],
    );

    let result = run(&verb);
    let arr = as_array(&result).unwrap();
    assert_eq!(arr[0].as_bool().unwrap(), true); // 1 != 2
    assert_eq!(arr[1].as_bool().unwrap(), true); // 1 < 2
    assert_eq!(arr[2].as_bool().unwrap(), true); // 2 >= 2
    assert_eq!(arr[3].as_bool().unwrap(), true); // 2 <= 2
}

#[test]
fn test_unknown_variable_returns_null() {
    let verb = var("nonexistent");

    let result = run(&verb);
    assert!(result.is_null());
}

#[test]
fn test_string_operations() {
    // str.concat, str.len, str.slice
    let verb = SExpr::call(
        "list.new",
        vec![
            SExpr::call(
                "str.concat",
                vec![
                    SExpr::string("hello"),
                    SExpr::string(" "),
                    SExpr::string("world"),
                ],
            ),
            SExpr::call("str.len", vec![SExpr::string("hello")]),
            SExpr::call(
                "str.slice",
                vec![SExpr::string("hello"), num(1.0), num(4.0)],
            ),
        ],
    );

    let result = run(&verb);
    let arr = as_array(&result).unwrap();
    assert_eq!(as_str(&arr[0]).unwrap(), "hello world");
    assert_eq!(as_f64(&arr[1]).unwrap(), 5.0);
    assert_eq!(as_str(&arr[2]).unwrap(), "ell");
}

#[test]
fn test_list_map_filter() {
    // Double each number.
    let verb = SExpr::call(
        "std.seq",
        vec![
            // nums = [1, 2, 3, 4, 5]
            SExpr::call("std.let", vec![SExpr::string("nums"), one_to_five()]),
            // doubled = list.map(nums, x => x * 2)
            SExpr::call(
                "std.let",
                vec![
                    SExpr::string("doubled"),
                    SExpr::call(
                        "list.map",
                        vec![
                            var("nums"),
                            SExpr::call(
                                "std.lambda",
                                vec![
                                    SExpr::list(vec![SExpr::string("x")]),
                                    SExpr::call("math.mul", vec![var("x"), num(2.0)]),
                                ],
                            ),
                        ],
                    ),
                ],
            ),
            var("doubled"),
        ],
    );

    let result = run(&verb);
    let arr = as_array(&result).unwrap();
    assert_eq!(arr.len(), 5);
    assert_eq!(as_f64(&arr[0]).unwrap(), 2.0);
    assert_eq!(as_f64(&arr[1]).unwrap(), 4.0);
    assert_eq!(as_f64(&arr[2]).unwrap(), 6.0);
    assert_eq!(as_f64(&arr[3]).unwrap(), 8.0);
    assert_eq!(as_f64(&arr[4]).unwrap(), 10.0);
}

fn whole(n: i64) -> SExpr {
    SExpr::integer(n)
}

fn let_(name: &str, value: SExpr) -> SExpr {
    SExpr::call("std.let", vec![SExpr::string(name), value])
}

fn set(name: &str, value: SExpr) -> SExpr {
    SExpr::call("std.set", vec![SExpr::string(name), value])
}

#[test]
fn a_function_keeps_the_scope_in_which_it_was_made() {
    // n = 0; inc = () => n = n + 1; inc(); inc(); [n, inc()]
    let verb = SExpr::call(
        "std.seq",
        vec![
            let_("n", whole(0)),
            let_(
                "inc",
                SExpr::call(
                    "std.fn",
                    vec![
                        SExpr::list(vec![]),
                        set("n", SExpr::call("math.add", vec![var("n"), whole(1)])),
                    ],
                ),
            ),
            SExpr::call("inc", vec![]),
            SExpr::call("inc", vec![]),
            SExpr::call("list.new", vec![var("n"), SExpr::call("inc", vec![])]),
        ],
    );
    let result = run(&verb);
    let arr = as_array(&result).unwrap();
    assert_eq!(as_f64(&arr[0]).unwrap(), 2.0);
    assert_eq!(as_f64(&arr[1]).unwrap(), 3.0);
}

#[test]
fn parameters_shadow_and_missing_arguments_are_null() {
    // x = 1; f = (x, y) => [x, y]; [f(7), x]
    let verb = SExpr::call(
        "std.seq",
        vec![
            let_("x", whole(1)),
            let_(
                "f",
                SExpr::call(
                    "std.lambda",
                    vec![
                        SExpr::list(vec![SExpr::string("x"), SExpr::string("y")]),
                        SExpr::call("list.new", vec![var("x"), var("y")]),
                    ],
                ),
            ),
            SExpr::call("list.new", vec![SExpr::call("f", vec![whole(7)]), var("x")]),
        ],
    );
    assert_eq!(
        run(&verb),
        SValue::Array(vec![
            SValue::Array(vec![SValue::integer(7), SValue::Null]),
            SValue::integer(1),
        ])
    );
}

#[test]
fn filter_keeps_the_items_that_count_as_true() {
    // list.filter([1..5], x => x > 2)
    let verb = SExpr::call(
        "list.filter",
        vec![
            one_to_five(),
            SExpr::call(
                "std.lambda",
                vec![
                    SExpr::list(vec![SExpr::string("x")]),
                    SExpr::call("bool.gt", vec![var("x"), whole(2)]),
                ],
            ),
        ],
    );
    assert_eq!(
        run(&verb),
        SValue::Array(vec![SValue::integer(3), SValue::integer(4), SValue::integer(5)])
    );
}

#[test]
fn continue_in_a_while_loop_goes_on_with_the_next_round() {
    // i = 0; s = 0; while (i < 5) { i += 1; if (i == 2) continue; s += i }; s
    let verb = SExpr::call(
        "std.seq",
        vec![
            let_("i", whole(0)),
            let_("s", whole(0)),
            SExpr::call(
                "std.while",
                vec![
                    SExpr::call("bool.lt", vec![var("i"), whole(5)]),
                    SExpr::call(
                        "std.seq",
                        vec![
                            set("i", SExpr::call("math.add", vec![var("i"), whole(1)])),
                            SExpr::call(
                                "std.if",
                                vec![
                                    SExpr::call("bool.eq", vec![var("i"), whole(2)]),
                                    SExpr::call("std.continue", vec![]),
                                ],
                            ),
                            set("s", SExpr::call("math.add", vec![var("s"), var("i")])),
                        ],
                    ),
                ],
            ),
            var("s"),
        ],
    );
    assert_eq!(run(&verb), SValue::integer(13)); // 1 + 3 + 4 + 5
}

#[test]
fn a_variable_of_a_loop_body_does_not_outlive_its_round() {
    // for x in [1, 2] { let seen = x }; seen
    let verb = SExpr::call(
        "std.seq",
        vec![
            SExpr::call(
                "std.for",
                vec![
                    SExpr::string("x"),
                    SExpr::call("list.new", vec![whole(1), whole(2)]),
                    let_("seen", var("x")),
                ],
            ),
            SExpr::call("list.new", vec![var("seen"), var("x")]),
        ],
    );
    assert_eq!(run(&verb), SValue::Array(vec![SValue::Null, SValue::Null]));
}

#[test]
fn literals_lists_and_objects_evaluate_to_themselves() {
    let verb = SExpr::list(vec![
        SExpr::Null,
        SExpr::Object(vec![
            ("a".to_string(), SExpr::call("math.mul", vec![whole(6), whole(7)])),
            ("b".to_string(), SExpr::list(vec![])),
        ]),
        SExpr::call("bool.and", vec![SExpr::Null, SExpr::call("std.throw", vec![whole(1)])]),
        SExpr::call("bool.or", vec![SExpr::string(""), SExpr::call("std.throw", vec![whole(1)])]),
        SExpr::call("bool.not", vec![whole(0)]),
        SExpr::call("math.neg", vec![whole(5)]),
    ]);
    assert_eq!(
        run(&verb),
        SValue::Array(vec![
            SValue::Null,
            SValue::Object(vec![
                ("a".to_string(), SValue::integer(42)),
                ("b".to_string(), SValue::Array(vec![])),
            ]),
            SValue::Null,
            SValue::string(""),
            SValue::Bool(false),
            SValue::integer(-5),
        ])
    );
}

#[test]
fn nesting_beyond_the_limit_exceeds_the_budget() {
    let mut deep = whole(1);
    for _ in 0..300 {
        deep = SExpr::call("std.seq", vec![deep]);
    }
    let (mut runtime, entity_id) = setup_entity();
    runtime.storage.add_verb(entity_id, "deep", &deep).unwrap();
    assert!(matches!(
        runtime.execute_verb(&mut Door::new(ExactHost {}), entity_id, "deep", vec![], None),
        Err(viwo::error::ExecutionError::BudgetExceeded)
    ));
    // Well inside the limit the value comes through.
    let mut shallow = whole(1);
    for _ in 0..50 {
        shallow = SExpr::call("std.seq", vec![shallow]);
    }
    assert_eq!(run(&shallow), SValue::integer(1));
}

#[test]
fn a_function_is_not_a_result() {
    let verb = SExpr::call("std.fn", vec![SExpr::list(vec![]), SExpr::Null]);
    let (mut runtime, entity_id) = setup_entity();
    runtime.storage.add_verb(entity_id, "f", &verb).unwrap();
    assert!(matches!(
        runtime.execute_verb(&mut Door::new(ExactHost {}), entity_id, "f", vec![], None),
        Err(viwo::error::ExecutionError::TypeError(_))
    ));
}
