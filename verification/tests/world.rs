//! The world: entities, prototypes, verbs, capabilities, and the opcodes
//! that reach them.

use viwo::entity::EntityId;
use viwo::error::ExecutionError;
use viwo::eval::{ExactHost, Door};
use viwo::ir::SExpr;
use viwo::number::Number;
use viwo::opcodes::{flatten_entity, opcode_create, opcode_entity, opcode_update};
use viwo::prototype::{resolve_capability, resolve_property, resolve_verb};
use viwo::runtime::ViwoRuntime;
use viwo::storage::{StorageError, WorldStorage};
use viwo::value::SValue;

fn num(x: f64) -> SExpr {
    SExpr::number(x.to_bits())
}

fn integer(n: i64) -> SValue {
    SValue::Number(Number::Int(n))
}

fn obj(pairs: &[(&str, SValue)]) -> SValue {
    SValue::Object(
        pairs
            .iter()
            .map(|(k, v)| (k.to_string(), v.clone()))
            .collect(),
    )
}

fn var(name: &str) -> SExpr {
    SExpr::call("std.var", vec![SExpr::string(name)])
}

#[test]
fn create_entity_returns_distinct_increasing_ids() {
    let mut world = WorldStorage::in_memory().unwrap();
    let a = world.create_entity(obj(&[]), None).unwrap();
    let b = world.create_entity(obj(&[]), Some(a)).unwrap();
    let c = world.create_entity(obj(&[]), Some(b)).unwrap();
    assert_eq!((a, b, c), (1, 2, 3));
    assert_eq!(world.get_entity(b).unwrap().prototype_id, Some(a));
    assert!(world.get_entity(4).is_none());
}

#[test]
fn create_entity_rejects_a_missing_prototype() {
    let mut world = WorldStorage::in_memory().unwrap();
    assert_eq!(
        world.create_entity(obj(&[]), Some(7)),
        Err(StorageError::EntityNotFound(7))
    );
    // Nothing was created: the next entity is the first.
    assert_eq!(world.create_entity(obj(&[]), None), Ok(1));
}

#[test]
fn update_entity_replaces_all_properties() {
    let mut world = WorldStorage::in_memory().unwrap();
    let id = world
        .create_entity(obj(&[("a", integer(1)), ("b", integer(2))]), None)
        .unwrap();
    world.update_entity(id, obj(&[("c", integer(3))])).unwrap();
    assert_eq!(world.get_entity(id).unwrap().props, obj(&[("c", integer(3))]));
    assert_eq!(
        world.update_entity(99, obj(&[])),
        Err(StorageError::EntityNotFound(99))
    );
}

#[test]
fn update_then_get_holds_the_properties() {
    let mut world = WorldStorage::in_memory().unwrap();
    let id = world.create_entity(obj(&[("old", integer(0))]), None).unwrap();
    let props = obj(&[("x", integer(1)), ("y", SValue::string("two"))]);
    world.update_entity(id, props.clone()).unwrap();
    let stored = &world.get_entity(id).unwrap().props;
    assert_eq!(stored.get("x"), Some(&integer(1)));
    assert_eq!(stored.get("y"), Some(&SValue::string("two")));
}

#[test]
fn add_verb_is_an_upsert_and_get_verb_does_not_inherit() {
    let mut world = WorldStorage::in_memory().unwrap();
    let base = world.create_entity(obj(&[]), None).unwrap();
    let child = world.create_entity(obj(&[]), Some(base)).unwrap();
    world.add_verb(base, "greet", &num(1.0)).unwrap();
    world.add_verb(base, "greet", &num(2.0)).unwrap();
    assert_eq!(world.get_verb(base, "greet").unwrap().code, num(2.0));
    assert!(world.get_verb(child, "greet").is_none());
    assert_eq!(resolve_verb(&world, child, "greet").unwrap().owner_id, base);
    assert!(resolve_verb(&world, child, "wave").is_none());
    assert_eq!(
        world.add_verb(42, "greet", &num(1.0)),
        Err(StorageError::EntityNotFound(42))
    );
}

#[test]
fn property_lookup_takes_the_nearest_ancestor() {
    let mut world = WorldStorage::in_memory().unwrap();
    let root = world
        .create_entity(
            obj(&[("color", SValue::string("red")), ("size", integer(1))]),
            None,
        )
        .unwrap();
    let middle = world
        .create_entity(obj(&[("size", integer(2))]), Some(root))
        .unwrap();
    let leaf = world.create_entity(obj(&[]), Some(middle)).unwrap();
    assert_eq!(
        resolve_property(&world, leaf, "color"),
        Some(&SValue::string("red"))
    );
    assert_eq!(resolve_property(&world, leaf, "size"), Some(&integer(2)));
    assert_eq!(resolve_property(&world, root, "size"), Some(&integer(1)));
    assert_eq!(resolve_property(&world, leaf, "weight"), None);
    assert_eq!(resolve_property(&world, 99, "color"), None);
}

#[test]
fn flattened_entity_holds_id_prototype_and_props() {
    let mut world = WorldStorage::in_memory().unwrap();
    let base = world.create_entity(obj(&[]), None).unwrap();
    let child = world
        .create_entity(obj(&[("name", SValue::string("kid"))]), Some(base))
        .unwrap();
    assert_eq!(
        flatten_entity(world.get_entity(child).unwrap()),
        obj(&[
            ("id", integer(child)),
            ("prototype_id", integer(base)),
            ("name", SValue::string("kid")),
        ])
    );
    assert_eq!(
        opcode_entity(&world, base).unwrap(),
        obj(&[("id", integer(base)), ("prototype_id", SValue::Null)])
    );
    // As scripts see it, the child also has what it inherits.
    world
        .update_entity(base, obj(&[("name", SValue::string("base")), ("legs", integer(4))]))
        .unwrap();
    assert_eq!(
        opcode_entity(&world, child).unwrap(),
        obj(&[
            ("id", integer(child)),
            ("prototype_id", integer(base)),
            ("name", SValue::string("kid")),
            ("legs", integer(4)),
        ])
    );
    assert!(matches!(
        opcode_entity(&world, 77),
        Err(ExecutionError::EntityNotFound(77))
    ));
}

#[test]
fn update_opcode_merges_at_the_top_level() {
    let mut world = WorldStorage::in_memory().unwrap();
    let id = world
        .create_entity(
            obj(&[
                ("keep", integer(1)),
                ("nested", obj(&[("a", integer(1)), ("b", integer(2))])),
            ]),
            None,
        )
        .unwrap();
    opcode_update(&mut world, id, &obj(&[("nested", obj(&[("c", integer(3))]))])).unwrap();
    assert_eq!(
        world.get_entity(id).unwrap().props,
        obj(&[("keep", integer(1)), ("nested", obj(&[("c", integer(3))]))])
    );
}

#[test]
fn updates_with_disjoint_keys_leave_the_union() {
    let mut world = WorldStorage::in_memory().unwrap();
    let id = world.create_entity(obj(&[("base", integer(0))]), None).unwrap();
    opcode_update(&mut world, id, &obj(&[("a", integer(1)), ("b", integer(2))])).unwrap();
    opcode_update(&mut world, id, &obj(&[("c", integer(3))])).unwrap();
    let props = &world.get_entity(id).unwrap().props;
    assert_eq!(props.get("base"), Some(&integer(0)));
    assert_eq!(props.get("a"), Some(&integer(1)));
    assert_eq!(props.get("b"), Some(&integer(2)));
    assert_eq!(props.get("c"), Some(&integer(3)));
}

#[test]
fn update_opcode_rejects_what_is_not_an_object_or_not_data() {
    let mut world = WorldStorage::in_memory().unwrap();
    let id = world.create_entity(obj(&[]), None).unwrap();
    assert!(matches!(
        opcode_update(&mut world, id, &integer(3)),
        Err(ExecutionError::TypeError(_))
    ));
    assert!(matches!(
        opcode_update(&mut world, id, &obj(&[("f", SValue::Function(0))])),
        Err(ExecutionError::TypeError(_))
    ));
    assert!(matches!(
        opcode_update(&mut world, 9, &obj(&[])),
        Err(ExecutionError::EntityNotFound(9))
    ));
    assert!(matches!(
        opcode_create(&mut world, SValue::Function(0), None),
        Err(ExecutionError::TypeError(_))
    ));
    assert!(matches!(
        opcode_create(&mut world, obj(&[]), Some(9)),
        Err(ExecutionError::EntityNotFound(9))
    ));
}

#[test]
fn capabilities_are_found_along_the_chain() {
    let mut world = WorldStorage::in_memory().unwrap();
    let base = world.create_entity(obj(&[]), None).unwrap();
    let child = world.create_entity(obj(&[]), Some(base)).unwrap();
    let other = world.create_entity(obj(&[]), None).unwrap();
    let first = world
        .add_capability(base, "fs.read", obj(&[("path", SValue::string("/a"))]))
        .unwrap();
    let second = world
        .add_capability(base, "fs.read", obj(&[("path", SValue::string("/b"))]))
        .unwrap();
    assert_eq!((first, second), (1, 2));
    assert_eq!(resolve_capability(&world, child, "fs.read").unwrap().id, first);
    assert!(resolve_capability(&world, child, "fs.write").is_none());
    assert!(resolve_capability(&world, other, "fs.read").is_none());
    assert!(world.get_capability(child, "fs.read").is_none());
}

/// The verb that adds one to the caller's counter, stores it, and returns
/// it.
fn increment_verb() -> SExpr {
    SExpr::call(
        "std.seq",
        vec![
            SExpr::call(
                "std.let",
                vec![
                    SExpr::string("current"),
                    SExpr::call(
                        "bool.guard",
                        vec![
                            SExpr::call(
                                "obj.get",
                                vec![
                                    SExpr::call("entity", vec![SExpr::call("std.caller", vec![])]),
                                    SExpr::string("counter"),
                                ],
                            ),
                            num(0.0),
                        ],
                    ),
                ],
            ),
            SExpr::call(
                "std.let",
                vec![
                    SExpr::string("new_val"),
                    SExpr::call("math.add", vec![var("current"), num(1.0)]),
                ],
            ),
            SExpr::call(
                "update",
                vec![
                    SExpr::call("std.caller", vec![]),
                    SExpr::call(
                        "obj.new",
                        vec![SExpr::list(vec![SExpr::string("counter"), var("new_val")])],
                    ),
                ],
            ),
            var("new_val"),
        ],
    )
}

#[test]
fn test_update_persists_counter() {
    let storage = WorldStorage::in_memory().unwrap();
    let mut runtime = ViwoRuntime::new(storage);
    let entity_id: EntityId = runtime
        .storage
        .create_entity(
            obj(&[("name", SValue::string("Test")), ("counter", integer(0))]),
            None,
        )
        .unwrap();
    runtime
        .storage
        .add_verb(entity_id, "increment", &increment_verb())
        .unwrap();

    for i in 1..=3 {
        let result = runtime
            .execute_verb(&mut Door::new(ExactHost {}), entity_id, "increment", vec![], Some(entity_id))
            .unwrap();
        assert_eq!(result, integer(i));

        let entity = runtime.storage.get_entity(entity_id).unwrap();
        let counter = entity.props.get("counter").and_then(|v| v.as_i64()).unwrap_or(-1);
        assert_eq!(counter, i, "Counter should be {} after {} increments", i, i);
    }
    // The other property is still there.
    assert_eq!(
        runtime.storage.get_entity(entity_id).unwrap().props.get("name"),
        Some(&SValue::string("Test"))
    );
}

#[test]
fn counter_with_flat_object_pairs() {
    // seq(let new = add(get(entity(caller), "counter"), 1);
    //     update(caller, obj.new("counter", new)); new)
    let verb = SExpr::call(
        "std.seq",
        vec![
            SExpr::call(
                "std.let",
                vec![
                    SExpr::string("new"),
                    SExpr::call(
                        "math.add",
                        vec![
                            SExpr::call(
                                "obj.get",
                                vec![
                                    SExpr::call("entity", vec![SExpr::call("std.caller", vec![])]),
                                    SExpr::string("counter"),
                                ],
                            ),
                            num(1.0),
                        ],
                    ),
                ],
            ),
            SExpr::call(
                "update",
                vec![
                    SExpr::call("std.caller", vec![]),
                    SExpr::call("obj.new", vec![SExpr::string("counter"), var("new")]),
                ],
            ),
            var("new"),
        ],
    );
    let mut runtime = ViwoRuntime::new(WorldStorage::in_memory().unwrap());
    let e = runtime
        .storage
        .create_entity(obj(&[("counter", integer(0))]), None)
        .unwrap();
    runtime.storage.add_verb(e, "inc", &verb).unwrap();
    for expected in 1..=3 {
        let got = runtime
            .execute_verb(&mut Door::new(ExactHost {}), e, "inc", vec![], Some(e))
            .unwrap();
        assert_eq!(got, integer(expected));
    }
    assert_eq!(
        runtime.storage.get_entity(e).unwrap().props.get("counter"),
        Some(&integer(3))
    );
}

#[test]
fn a_verb_of_the_prototype_runs_on_the_child() {
    let mut runtime = ViwoRuntime::new(WorldStorage::in_memory().unwrap());
    let base = runtime
        .storage
        .create_entity(obj(&[("color", SValue::string("red"))]), None)
        .unwrap();
    let child = runtime.storage.create_entity(obj(&[]), Some(base)).unwrap();
    // greet returns this.id
    let greet = SExpr::call(
        "obj.get",
        vec![SExpr::call("std.this", vec![]), SExpr::string("id")],
    );
    runtime.storage.add_verb(base, "greet", &greet).unwrap();
    let got = runtime
        .execute_verb(&mut Door::new(ExactHost {}), child, "greet", vec![], None)
        .unwrap();
    assert_eq!(got, integer(child));
    // The color that the child inherits, as a verb on the child sees it:
    // on itself, and when it looks the child up.
    let mine = SExpr::call(
        "obj.get",
        vec![SExpr::call("std.this", vec![]), SExpr::string("color")],
    );
    let looked_up = SExpr::call(
        "obj.get",
        vec![
            SExpr::call("entity", vec![SExpr::integer(child)]),
            SExpr::string("color"),
        ],
    );
    runtime.storage.add_verb(base, "mine", &mine).unwrap();
    runtime.storage.add_verb(base, "looked_up", &looked_up).unwrap();
    for verb in ["mine", "looked_up"] {
        assert_eq!(
            runtime
                .execute_verb(&mut Door::new(ExactHost {}), child, verb, vec![], None)
                .unwrap(),
            SValue::string("red")
        );
    }
    assert_eq!(
        resolve_property(&runtime.storage, child, "color"),
        Some(&SValue::string("red"))
    );
    // The child's own property takes the place of the inherited one.
    runtime
        .storage
        .update_entity(child, obj(&[("color", SValue::string("blue"))]))
        .unwrap();
    assert_eq!(
        runtime
            .execute_verb(&mut Door::new(ExactHost {}), child, "mine", vec![], None)
            .unwrap(),
        SValue::string("blue")
    );
    assert_eq!(
        runtime
            .execute_verb(&mut Door::new(ExactHost {}), base, "mine", vec![], None)
            .unwrap(),
        SValue::string("red")
    );
}

#[test]
fn a_missing_verb_is_reported_with_entity_and_name() {
    let mut runtime = ViwoRuntime::new(WorldStorage::in_memory().unwrap());
    let e = runtime.storage.create_entity(obj(&[]), None).unwrap();
    match runtime.execute_verb(&mut Door::new(ExactHost {}), e, "nope", vec![], None) {
        Err(ExecutionError::VerbNotFound { entity, verb }) => {
            assert_eq!(entity, e);
            assert_eq!(verb, "nope");
        }
        other => panic!("expected VerbNotFound, got {:?}", other),
    }
    assert!(matches!(
        runtime.execute_verb(&mut Door::new(ExactHost {}), 55, "nope", vec![], None),
        Err(ExecutionError::VerbNotFound { .. })
    ));
}

#[test]
fn call_runs_a_verb_on_another_entity_with_this_as_caller() {
    let mut runtime = ViwoRuntime::new(WorldStorage::in_memory().unwrap());
    let a = runtime.storage.create_entity(obj(&[]), None).unwrap();
    let b = runtime.storage.create_entity(obj(&[]), None).unwrap();
    // who: [caller, this.id, first argument]
    let who = SExpr::call(
        "list.new",
        vec![
            SExpr::call("std.caller", vec![]),
            SExpr::call(
                "obj.get",
                vec![SExpr::call("std.this", vec![]), SExpr::string("id")],
            ),
            SExpr::call("std.arg", vec![num(0.0)]),
        ],
    );
    runtime.storage.add_verb(b, "who", &who).unwrap();
    let ask = SExpr::call(
        "call",
        vec![
            SExpr::call("entity", vec![num(b as f64)]),
            SExpr::string("who"),
            SExpr::call("list.new", vec![SExpr::string("hi")]),
        ],
    );
    runtime.storage.add_verb(a, "ask", &ask).unwrap();
    let got = runtime
        .execute_verb(&mut Door::new(ExactHost {}), a, "ask", vec![], None)
        .unwrap();
    assert_eq!(got, SValue::Array(vec![integer(a), integer(b), SValue::string("hi")]));
}

#[test]
fn an_uncaught_throw_ends_the_call_and_try_catches_it_across_a_call() {
    let mut runtime = ViwoRuntime::new(WorldStorage::in_memory().unwrap());
    let a = runtime.storage.create_entity(obj(&[]), None).unwrap();
    let thrower = SExpr::call("std.throw", vec![SExpr::string("boom")]);
    runtime.storage.add_verb(a, "thrower", &thrower).unwrap();
    match runtime.execute_verb(&mut Door::new(ExactHost {}), a, "thrower", vec![], None) {
        Err(ExecutionError::ScriptThrow(v)) => assert_eq!(v, SValue::string("boom")),
        other => panic!("expected ScriptThrow, got {:?}", other),
    }
    let catcher = SExpr::call(
        "std.try",
        vec![
            SExpr::call(
                "call",
                vec![num(a as f64), SExpr::string("thrower"), SExpr::call("list.new", vec![])],
            ),
            SExpr::string("e"),
            var("e"),
        ],
    );
    runtime.storage.add_verb(a, "catcher", &catcher).unwrap();
    assert_eq!(
        runtime
            .execute_verb(&mut Door::new(ExactHost {}), a, "catcher", vec![], None)
            .unwrap(),
        SValue::string("boom")
    );
    // A failure of the engine is not caught.
    let missing = SExpr::call(
        "std.try",
        vec![
            SExpr::call("entity", vec![num(999.0)]),
            SExpr::string("e"),
            SExpr::string("caught"),
        ],
    );
    runtime.storage.add_verb(a, "missing", &missing).unwrap();
    assert!(matches!(
        runtime.execute_verb(&mut Door::new(ExactHost {}), a, "missing", vec![], None),
        Err(ExecutionError::EntityNotFound(999))
    ));
}

#[test]
fn an_endless_loop_runs_out_of_budget() {
    let mut runtime = ViwoRuntime::new(WorldStorage::in_memory().unwrap());
    runtime.budget = 10_000;
    let a = runtime.storage.create_entity(obj(&[]), None).unwrap();
    let spin = SExpr::call("std.while", vec![SExpr::Bool(true), SExpr::Null]);
    runtime.storage.add_verb(a, "spin", &spin).unwrap();
    assert!(matches!(
        runtime.execute_verb(&mut Door::new(ExactHost {}), a, "spin", vec![], None),
        Err(ExecutionError::BudgetExceeded)
    ));
}

#[test]
fn jumps_outside_a_loop_and_unbound_assignments_fail() {
    let mut runtime = ViwoRuntime::new(WorldStorage::in_memory().unwrap());
    let a = runtime.storage.create_entity(obj(&[]), None).unwrap();
    runtime
        .storage
        .add_verb(a, "brk", &SExpr::call("std.break", vec![]))
        .unwrap();
    runtime
        .storage
        .add_verb(
            a,
            "set",
            &SExpr::call("std.set", vec![SExpr::string("x"), num(1.0)]),
        )
        .unwrap();
    runtime
        .storage
        .add_verb(a, "what", &SExpr::call("no.such.opcode", vec![]))
        .unwrap();
    assert!(matches!(
        runtime.execute_verb(&mut Door::new(ExactHost {}), a, "brk", vec![], None),
        Err(ExecutionError::TypeError(_))
    ));
    assert!(matches!(
        runtime.execute_verb(&mut Door::new(ExactHost {}), a, "set", vec![], None),
        Err(ExecutionError::TypeError(_))
    ));
    assert!(matches!(
        runtime.execute_verb(&mut Door::new(ExactHost {}), a, "what", vec![], None),
        Err(ExecutionError::Validation(_))
    ));
}

#[test]
fn entities_are_found_among_many() {
    let mut world = WorldStorage::in_memory().unwrap();
    for i in 1..=200i64 {
        let prototype = if i > 1 { Some(i / 2) } else { None };
        assert_eq!(world.create_entity(obj(&[("n", integer(i))]), prototype), Ok(i));
    }
    for i in [1i64, 2, 3, 99, 100, 101, 199, 200] {
        let entity = world.get_entity(i).unwrap();
        assert_eq!(entity.id, i);
        assert_eq!(entity.props.get("n"), Some(&integer(i)));
    }
    for i in [0i64, -1, 201, i64::MAX, i64::MIN] {
        assert!(world.get_entity(i).is_none());
    }
    // 200 -> 100 -> 50 -> 25 -> 12 -> 6 -> 3 -> 1: the nearest has the say.
    assert_eq!(resolve_property(&world, 200, "n"), Some(&integer(200)));
    world.update_entity(200, obj(&[])).unwrap();
    world.update_entity(100, obj(&[])).unwrap();
    assert_eq!(resolve_property(&world, 200, "n"), Some(&integer(50)));
    assert_eq!(world.entities().len(), 200);
}

#[test]
fn an_entity_is_who_it_is_whatever_its_properties_say() {
    let mut runtime = ViwoRuntime::new(WorldStorage::in_memory().unwrap());
    for _ in 0..6 {
        runtime.storage.create_entity(obj(&[]), None).unwrap();
    }
    let base = runtime
        .storage
        .create_entity(obj(&[("id", integer(99)), ("x", integer(1))]), None)
        .unwrap();
    assert_eq!(base, 7);
    let flat = flatten_entity(runtime.storage.get_entity(base).unwrap());
    assert_eq!(flat.get("id"), Some(&integer(7)));
    assert_eq!(flat.get("prototype_id"), Some(&SValue::Null));
    assert_eq!(flat.get("x"), Some(&integer(1)));
    assert_eq!(
        flat,
        obj(&[("id", integer(7)), ("prototype_id", SValue::Null), ("x", integer(1))])
    );

    // A child that inherits a property named `id`, and has one named
    // `prototype_id`, is still itself to scripts.
    let child = runtime
        .storage
        .create_entity(obj(&[("prototype_id", SValue::string("none"))]), Some(base))
        .unwrap();
    let seen = opcode_entity(&runtime.storage, child).unwrap();
    assert_eq!(seen.get("id"), Some(&integer(child)));
    assert_eq!(seen.get("prototype_id"), Some(&integer(base)));
    assert_eq!(seen.get("x"), Some(&integer(1)));

    let this_id = SExpr::call(
        "obj.get",
        vec![SExpr::call("std.this", vec![]), SExpr::string("id")],
    );
    runtime.storage.add_verb(base, "who", &this_id).unwrap();
    // A call whose target is given as an entity reaches that entity.
    let ask = SExpr::call(
        "call",
        vec![
            SExpr::call("entity", vec![SExpr::integer(child)]),
            SExpr::string("who"),
            SExpr::List(vec![]),
        ],
    );
    runtime.storage.add_verb(base, "ask", &ask).unwrap();
    let mut host = Door::new(ExactHost {});
    assert_eq!(
        runtime.execute_verb(&mut host, child, "who", vec![], None).unwrap(),
        integer(child)
    );
    assert_eq!(
        runtime.execute_verb(&mut host, base, "ask", vec![], None).unwrap(),
        integer(child)
    );
}
