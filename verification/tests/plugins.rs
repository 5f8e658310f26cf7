//! The plugins' rules and the path from an opcode to a plugin.

use viwo::error::ExecutionError;
use viwo::eval::{call_plugin_function, Door, ExactHost, ExecutionContext, Host, Signal};
use viwo::hostcall::{interpret_reply, prepare_host_call, PluginReply, PluginRequest};
use viwo::ir::SExpr;
use viwo::number::{Comparison, MathOp, Number};
use viwo::plugin::{error_json, plugin_output};
use viwo::fs::{parse_request, permit, FsOp};
use viwo::registry::{init_registry, namespace};
use viwo::runtime::execute;
use viwo::runtime::ViwoRuntime;
use viwo::sqlite::{
    base64_encode, init_connections, row_to_value, to_sql_params, SqlParam, SqlValue,
};
use viwo::storage::WorldStorage;
use viwo::value::SValue;

fn integer(n: i64) -> SValue {
    SValue::Number(Number::Int(n))
}

fn obj(pairs: &[(&str, SValue)]) -> SValue {
    SValue::Object(
        pairs
            .iter()
            .map(|(k, v)| (k.to_string(), v.clone()))
            .collect(),
    )
}

fn path_capability(owner_id: i64, path: &str) -> SValue {
    obj(&[
        ("owner_id", integer(owner_id)),
        ("params", obj(&[("path", SValue::string(path))])),
    ])
}

fn url_capability(owner_id: i64, url: &str) -> SValue {
    obj(&[
        ("owner_id", integer(owner_id)),
        ("params", obj(&[("url", SValue::string(url))])),
    ])
}

#[test]
fn test_fs_capability_validation() {
    let cap = path_capability(1, "/tmp/sandbox");
    // The wrong entity.
    let result = viwo::fs::validate_capability(
        &cap,
        2,
        "/tmp/sandbox/test.txt",
        Some("/tmp/sandbox/test.txt"),
        Some("/tmp/sandbox"),
    );
    assert!(result.is_err());
    assert!(result.unwrap_err().contains("does not belong"));
}

#[test]
fn fs_paths_are_granted_by_component() {
    let cap = path_capability(1, "/tmp/sandbox");
    let check = |requested: &str, target: Option<&str>, allowed: Option<&str>| {
        viwo::fs::validate_capability(&cap, 1, requested, target, allowed)
    };
    assert_eq!(check("a.txt", Some("/tmp/sandbox/a.txt"), Some("/tmp/sandbox")), Ok(()));
    assert_eq!(check(".", Some("/tmp/sandbox"), Some("/tmp/sandbox")), Ok(()));
    assert_eq!(
        check("/tmp/other/a.txt", Some("/tmp/other/a.txt"), Some("/tmp/sandbox")),
        Err("fs: path '/tmp/other/a.txt' not allowed by capability (allowed: '/tmp/sandbox')"
            .to_string())
    );
    // A sibling whose name starts alike is not inside.
    assert!(check("x", Some("/tmp/sandbox2/x"), Some("/tmp/sandbox")).is_err());
    assert_eq!(
        check("gone", None, Some("/tmp/sandbox")),
        Err("fs: path does not exist: gone".to_string())
    );
    assert_eq!(
        check("a", Some("/tmp/sandbox/a"), None),
        Err("fs: invalid allowed path: /tmp/sandbox".to_string())
    );
    assert!(viwo::fs::is_within("/etc/passwd", "/"));
    assert!(!viwo::fs::is_within("/", "/etc"));

    let no_owner = obj(&[("params", obj(&[("path", SValue::string("/"))]))]);
    assert_eq!(
        viwo::fs::validate_capability(&no_owner, 1, "/", Some("/"), Some("/")),
        Err("fs: capability missing owner_id".to_string())
    );
    let no_path = obj(&[("owner_id", integer(1))]);
    assert_eq!(
        viwo::fs::validate_capability(&no_path, 1, "/", Some("/"), Some("/")),
        Err("fs: capability missing path parameter".to_string())
    );
}

#[test]
fn fs_write_falls_back_to_the_parent() {
    let cap = path_capability(1, "/tmp/sandbox");
    // The file does not exist yet; its directory does and is granted.
    assert_eq!(
        viwo::fs::validate_write(
            &cap,
            1,
            "/tmp/sandbox/new.txt",
            None,
            Some("/tmp/sandbox"),
            Some("/tmp/sandbox"),
            Some("/tmp/sandbox"),
        ),
        Ok(())
    );
    assert_eq!(
        viwo::fs::validate_write(&cap, 1, "new.txt", None, None, None, Some("/tmp/sandbox")),
        Err("fs.write: invalid path".to_string())
    );
    assert!(viwo::fs::validate_write(
        &cap,
        1,
        "/tmp/other/new.txt",
        None,
        Some("/tmp/other"),
        Some("/tmp/other"),
        Some("/tmp/sandbox"),
    )
    .unwrap_err()
    .contains("not allowed"));
}

#[test]
fn fs_requests_and_answers() {
    let input = obj(&[
        ("capability", path_capability(1, "/tmp")),
        ("entity_id", integer(1)),
        ("path", SValue::string("/tmp/a")),
        ("content", SValue::string("Hello, World!")),
    ]);
    let request = viwo::fs::parse_request(&input, true).unwrap();
    assert_eq!(request.capability, path_capability(1, "/tmp"));
    assert_eq!(request.entity_id, 1);
    assert_eq!(request.path, "/tmp/a");
    assert_eq!(request.content.as_deref(), Some("Hello, World!"));
    assert_eq!(viwo::fs::parse_request(&input, false).unwrap().content, None);

    assert_eq!(
        viwo::fs::parse_request(&obj(&[]), false).unwrap_err(),
        "Missing entity_id"
    );
    assert_eq!(
        viwo::fs::parse_request(&obj(&[("entity_id", integer(1))]), false).unwrap_err(),
        "Missing path"
    );
    assert_eq!(
        viwo::fs::parse_request(
            &obj(&[("entity_id", integer(1)), ("path", SValue::string("p"))]),
            true
        )
        .unwrap_err(),
        "Missing content"
    );

    assert_eq!(
        viwo::fs::read_response("Hello!"),
        obj(&[("content", SValue::string("Hello!"))])
    );
    assert_eq!(viwo::fs::success_response(), obj(&[("success", SValue::Bool(true))]));
    assert_eq!(viwo::fs::exists_response(false), obj(&[("exists", SValue::Bool(false))]));
    assert_eq!(
        viwo::fs::list_response(&vec!["file1.txt".to_string(), "file2.txt".to_string()]),
        obj(&[(
            "files",
            SValue::Array(vec![SValue::string("file1.txt"), SValue::string("file2.txt")])
        )])
    );
    let stats = viwo::fs::stat_response(6, false, true, Some(1_700_000_000));
    assert_eq!(stats.get("size"), Some(&integer(6)));
    assert_eq!(stats.get("isFile"), Some(&SValue::Bool(true)));
    assert_eq!(stats.get("isDirectory"), Some(&SValue::Bool(false)));
    assert_eq!(stats.get("modified"), Some(&integer(1_700_000_000)));
    assert_eq!(
        viwo::fs::stat_response(0, true, false, None).get("modified"),
        Some(&SValue::Null)
    );
}

#[test]
fn test_net_capability_validation() {
    let cap = url_capability(1, "https://allowed.com");

    // Another domain.
    let result = viwo::net::validate_capability(&cap, 1, "https://forbidden.com/path");
    assert!(result.is_err());
    assert!(result.unwrap_err().contains("not allowed"));

    // The wrong entity.
    let result = viwo::net::validate_capability(&cap, 2, "https://allowed.com/path");
    assert!(result.is_err());
    assert!(result.unwrap_err().contains("does not belong"));

    assert_eq!(
        viwo::net::validate_capability(&cap, 1, "https://allowed.com/path"),
        Ok(())
    );
    assert_eq!(
        viwo::net::validate_capability(&cap, 1, "https://forbidden.com/path"),
        Err("net: URL 'https://forbidden.com/path' not allowed by capability (pattern: 'https://allowed.com')".to_string())
    );
}

#[test]
fn test_net_wildcard_capability() {
    let cap = url_capability(1, "*");
    assert!(viwo::net::validate_capability(&cap, 1, "https://httpbin.org/get").is_ok());
    // The wildcard does not make up for the wrong owner.
    assert!(viwo::net::validate_capability(&cap, 2, "https://httpbin.org/get").is_err());
}

#[test]
fn net_response_holds_status_headers_and_body() {
    let headers = vec![
        ("content-type".to_string(), "text/plain".to_string()),
        ("x-a".to_string(), "1".to_string()),
        ("x-a".to_string(), "2".to_string()),
    ];
    let response = viwo::net::response(200, &headers, "httpbin says hi");
    assert_eq!(response.get("status"), Some(&integer(200)));
    assert_eq!(response.get("body"), Some(&SValue::string("httpbin says hi")));
    assert_eq!(
        response.get("headers"),
        Some(&obj(&[
            ("content-type", SValue::string("text/plain")),
            ("x-a", SValue::string("2")),
        ]))
    );
}

#[test]
fn test_sqlite_capability_validation() {
    let cap = path_capability(1, "/data/db1.sqlite");

    // Another database.
    let result = viwo::sqlite::validate_capability(
        &cap,
        1,
        "/data/db2.sqlite",
        Some("/data/db2.sqlite"),
        Some("/data/db1.sqlite"),
    );
    assert!(result.is_err());
    assert!(result.unwrap_err().contains("not allowed"));

    // The wrong entity.
    let result = viwo::sqlite::validate_capability(
        &cap,
        2,
        "/data/db1.sqlite",
        Some("/data/db1.sqlite"),
        Some("/data/db1.sqlite"),
    );
    assert!(result.is_err());
    assert!(result.unwrap_err().contains("does not belong"));

    assert_eq!(
        viwo::sqlite::validate_capability(
            &cap,
            1,
            "db1.sqlite",
            Some("/data/db1.sqlite"),
            Some("/data/db1.sqlite"),
        ),
        Ok(())
    );
    // A database below the granted path is not the granted database.
    assert!(viwo::sqlite::validate_capability(
        &cap,
        1,
        "x",
        Some("/data/db1.sqlite/x"),
        Some("/data/db1.sqlite"),
    )
    .is_err());
    assert_eq!(
        viwo::sqlite::validate_capability(&cap, 1, "gone", None, Some("/data/db1.sqlite")),
        Err("sqlite: database path does not exist: gone".to_string())
    );
}

#[test]
fn test_sqlite_params() {
    let params = vec![
        integer(42),
        SValue::string("test"),
        SValue::Number(Number::Float(3.14f64.to_bits())),
        SValue::Null,
        SValue::Bool(true),
        SValue::Array(vec![]),
    ];
    assert_eq!(
        to_sql_params(&params),
        vec![
            SqlParam::Integer(42),
            SqlParam::Text("test".to_string()),
            SqlParam::Real(3.14f64.to_bits()),
            SqlParam::Null,
            SqlParam::Bool(true),
            SqlParam::Null,
        ]
    );
}

#[test]
fn sqlite_rows_become_objects() {
    let names = vec!["id".to_string(), "name".to_string(), "blob".to_string(), "n".to_string()];
    let row = vec![
        SqlValue::Integer(1),
        SqlValue::Text("Alice".to_string()),
        SqlValue::Blob(vec![1, 2, 3, 4]),
        SqlValue::Null,
    ];
    let value = row_to_value(&names, &row);
    assert_eq!(value.get("name"), Some(&SValue::string("Alice")));
    assert_eq!(value.get("id"), Some(&integer(1)));
    assert_eq!(value.get("blob"), Some(&SValue::string("AQIDBA==")));
    assert_eq!(value.get("n"), Some(&SValue::Null));
    assert_eq!(viwo::sqlite::execute_response(3), integer(3));
}

#[test]
fn base64_of_known_texts() {
    assert_eq!(base64_encode(b""), "");
    assert_eq!(base64_encode(b"f"), "Zg==");
    assert_eq!(base64_encode(b"fo"), "Zm8=");
    assert_eq!(base64_encode(b"foo"), "Zm9v");
    assert_eq!(base64_encode(b"foob"), "Zm9vYg==");
    assert_eq!(base64_encode(b"fooba"), "Zm9vYmE=");
    assert_eq!(base64_encode(b"foobar"), "Zm9vYmFy");
    assert_eq!(base64_encode(&[0xfb, 0xff, 0xbf]), "+/+/");
    assert_eq!(base64_encode(&[0xff, 0xff, 0xfe]), "///+");
}

#[test]
fn a_connection_is_opened_once_per_path() {
    let mut pool = init_connections();
    assert_eq!(pool.get_connection("/a.db"), (0, true));
    assert_eq!(pool.get_connection("/b.db"), (1, true));
    assert_eq!(pool.get_connection("/a.db"), (0, false));
    assert_eq!(pool.get_connection("/b.db"), (1, false));
}

#[test]
fn registry_keeps_slots_and_replaces_in_place() {
    let mut registry = init_registry();
    assert_eq!(registry.count(), 0);
    assert_eq!(registry.lookup("fs.read"), None);
    viwo::fs::register_functions(&mut registry);
    viwo::net::register_functions(&mut registry);
    viwo::sqlite::register_functions(&mut registry);
    assert_eq!(registry.count(), 11);
    assert_eq!(registry.lookup("fs.read"), Some(0));
    assert_eq!(registry.lookup("fs.remove"), Some(6));
    assert_eq!(registry.lookup("net.post"), Some(8));
    assert_eq!(registry.lookup("sqlite.execute"), Some(10));
    let list = registry.function(registry.lookup("fs.list").unwrap());
    assert_eq!(list.kind, "fs.read");
    assert_eq!(list.params, vec!["path".to_string()]);
    assert_eq!(registry.function(1).kind, "fs.write");
    assert_eq!(registry.function(8).params, vec!["url", "headers", "body"]);

    let slot = registry.register_plugin_function("fs.read", "fs", vec![]);
    assert_eq!(slot, 0);
    assert_eq!(registry.count(), 11);
    assert_eq!(registry.function(0).kind, "fs");
    assert_eq!(registry.register_plugin_function("time.now", "time", vec![]), 11);

    assert_eq!(namespace("fs.read"), "fs");
    assert_eq!(namespace("a.b.c"), "a");
    assert_eq!(namespace("entity"), "entity");
    assert_eq!(namespace(""), "");
}

#[test]
fn plugin_output_is_a_status_and_a_value() {
    assert_eq!(plugin_output(Ok(integer(1))), (0, integer(1)));
    assert_eq!(
        plugin_output(Err("bad".to_string())),
        (-1, obj(&[("error", SValue::string("bad"))]))
    );
    assert_eq!(error_json("x"), obj(&[("error", SValue::string("x"))]));
}

#[test]
fn a_reply_is_a_value_or_a_plugin_error() {
    let ok = PluginReply { status: 0, output: Some(integer(7)) };
    assert_eq!(interpret_reply("fs.read", ok).unwrap(), integer(7));

    let failed = PluginReply { status: -1, output: Some(error_json("fs: no")) };
    match interpret_reply("fs.read", failed) {
        Err(ExecutionError::PluginError(text)) => assert_eq!(text, "fs: no"),
        other => panic!("expected a plugin error, got {:?}", other),
    }
    let silent = PluginReply { status: 3, output: None };
    match interpret_reply("fs.read", silent) {
        Err(ExecutionError::PluginError(text)) => {
            assert_eq!(text, "Plugin function 'fs.read' failed with code 3")
        }
        other => panic!("expected a plugin error, got {:?}", other),
    }
    let empty = PluginReply { status: 0, output: None };
    match interpret_reply("fs.read", empty) {
        Err(ExecutionError::PluginError(text)) => {
            assert_eq!(text, "Plugin function 'fs.read' returned no JSON output")
        }
        other => panic!("expected a plugin error, got {:?}", other),
    }
}

/// A host that records the requests that reach it and answers like a
/// filesystem plugin that knows one file.
struct RecordingHost {
    seen: Vec<(String, SValue)>,
}

impl Host for RecordingHost {
    fn arithmetic(&mut self, op: MathOp, a: Number, b: Number) -> Number {
        let x = to_f64(a);
        let y = to_f64(b);
        let r = match op {
            MathOp::Add => x + y,
            MathOp::Sub => x - y,
            MathOp::Mul => x * y,
            MathOp::Div => x / y,
            MathOp::Mod => x % y,
            MathOp::Pow => x.powf(y),
        };
        Number::Float(r.to_bits())
    }

    fn negate(&mut self, a: Number) -> Number {
        Number::Float((-to_f64(a)).to_bits())
    }

    fn compare(&mut self, a: Number, b: Number) -> Comparison {
        match to_f64(a).partial_cmp(&to_f64(b)) {
            Some(std::cmp::Ordering::Less) => Comparison::Less,
            Some(std::cmp::Ordering::Equal) => Comparison::Equal,
            Some(std::cmp::Ordering::Greater) => Comparison::Greater,
            None => Comparison::Unordered,
        }
    }

    fn invoke(&mut self, request: &PluginRequest) -> PluginReply {
        self.seen.push((request.name.clone(), request.input.clone()));
        let capability = request.input.get("capability").unwrap();
        let entity_id = request.input.get("entity_id").and_then(|v| v.as_i64()).unwrap();
        let path = request.input.get("path").and_then(|v| v.as_str()).unwrap();
        let verdict = viwo::fs::validate_capability(
            capability,
            entity_id,
            path,
            Some(path),
            Some("/tmp/sandbox"),
        );
        let (status, output) = plugin_output(match verdict {
            Ok(()) => Ok(viwo::fs::read_response("contents of a.txt")),
            Err(e) => Err(e),
        });
        PluginReply { status, output: Some(output) }
    }
}

fn to_f64(n: Number) -> f64 {
    match n {
        Number::Int(i) => i as f64,
        Number::Float(bits) => f64::from_bits(bits),
    }
}

fn read_verb(path: &str) -> SExpr {
    SExpr::call(
        "obj.get",
        vec![
            SExpr::call("fs.read", vec![SExpr::string(path)]),
            SExpr::string("content"),
        ],
    )
}

#[test]
fn a_host_effect_needs_a_capability_on_the_chain() {
    let mut runtime = ViwoRuntime::new(WorldStorage::in_memory().unwrap());
    viwo::fs::register_functions(&mut runtime.registry);
    let base = runtime.storage.create_entity(obj(&[]), None).unwrap();
    let child = runtime.storage.create_entity(obj(&[]), Some(base)).unwrap();
    runtime
        .storage
        .add_verb(base, "read", &read_verb("/tmp/sandbox/a.txt"))
        .unwrap();
    runtime
        .storage
        .add_verb(base, "read_other", &read_verb("/tmp/other/a.txt"))
        .unwrap();
    let mut host = Door::new(RecordingHost { seen: vec![] });

    // No capability: the plugin is not reached.
    match runtime.execute_verb(&mut host, child, "read", vec![], None) {
        Err(ExecutionError::MissingCapability(kind)) => assert_eq!(kind, "fs.read"),
        other => panic!("expected MissingCapability, got {:?}", other),
    }
    assert!(host.host().seen.is_empty());

    // A capability of another kind does not help.
    runtime
        .storage
        .add_capability(child, "fs.write", obj(&[("path", SValue::string("/tmp/sandbox"))]))
        .unwrap();
    assert!(matches!(
        runtime.execute_verb(&mut host, child, "read", vec![], None),
        Err(ExecutionError::MissingCapability(_))
    ));
    assert!(host.host().seen.is_empty());

    // The child's own capability of the right kind does.
    let cap = runtime
        .storage
        .add_capability(child, "fs.read", obj(&[("path", SValue::string("/tmp/sandbox"))]))
        .unwrap();
    let got = runtime
        .execute_verb(&mut host, child, "read", vec![], None)
        .unwrap();
    assert_eq!(got, SValue::string("contents of a.txt"));
    assert_eq!(host.host().seen.len(), 1);
    assert_eq!(host.host().seen[0].0, "fs.read");
    assert_eq!(
        host.host().seen[0].1,
        obj(&[
            (
                "capability",
                obj(&[
                    ("id", integer(cap)),
                    ("owner_id", integer(child)),
                    ("kind", SValue::string("fs.read")),
                    ("params", obj(&[("path", SValue::string("/tmp/sandbox"))])),
                ])
            ),
            ("entity_id", integer(child)),
            ("args", SValue::Array(vec![SValue::string("/tmp/sandbox/a.txt")])),
            ("path", SValue::string("/tmp/sandbox/a.txt")),
        ])
    );

    // Outside the granted directory the plugin refuses.
    match runtime.execute_verb(&mut host, child, "read_other", vec![], None) {
        Err(ExecutionError::PluginError(text)) => assert!(text.contains("not allowed")),
        other => panic!("expected a plugin error, got {:?}", other),
    }
}

#[test]
fn an_inherited_capability_is_not_the_receivers_own() {
    let mut runtime = ViwoRuntime::new(WorldStorage::in_memory().unwrap());
    viwo::fs::register_functions(&mut runtime.registry);
    let base = runtime.storage.create_entity(obj(&[]), None).unwrap();
    let child = runtime.storage.create_entity(obj(&[]), Some(base)).unwrap();
    runtime
        .storage
        .add_capability(base, "fs.read", obj(&[("path", SValue::string("/tmp/sandbox"))]))
        .unwrap();
    runtime
        .storage
        .add_verb(base, "read", &read_verb("/tmp/sandbox/a.txt"))
        .unwrap();
    let mut host = Door::new(RecordingHost { seen: vec![] });
    // The engine finds the token on the chain; the plugin sees that its
    // owner is the prototype, not the presenting entity.
    match runtime.execute_verb(&mut host, child, "read", vec![], None) {
        Err(ExecutionError::PluginError(text)) => assert!(text.contains("does not belong")),
        other => panic!("expected a plugin error, got {:?}", other),
    }
    assert_eq!(host.host().seen.len(), 1);
    assert_eq!(
        runtime
            .execute_verb(&mut host, base, "read", vec![], None)
            .unwrap(),
        SValue::string("contents of a.txt")
    );
}

#[test]
fn prepare_host_call_says_what_is_missing() {
    let mut world = WorldStorage::in_memory().unwrap();
    let mut registry = init_registry();
    viwo::net::register_functions(&mut registry);
    let e = world.create_entity(obj(&[]), None).unwrap();
    match prepare_host_call(&world, &registry, e, "nope.nope", &vec![]) {
        Err(ExecutionError::PluginError(text)) => {
            assert_eq!(text, "Plugin function 'nope.nope' not registered")
        }
        other => panic!("unexpected: {:?}", other.map(|r| r.name)),
    }
    assert!(matches!(
        prepare_host_call(&world, &registry, e, "net.get", &vec![]),
        Err(ExecutionError::MissingCapability(_))
    ));
    world
        .add_capability(e, "net", obj(&[("url", SValue::string("*"))]))
        .unwrap();
    assert!(matches!(
        prepare_host_call(&world, &registry, e, "net.get", &vec![SValue::Function(0)]),
        Err(ExecutionError::TypeError(_))
    ));
    let request = prepare_host_call(
        &world,
        &registry,
        e,
        "net.post",
        &vec![SValue::string("https://x"), obj(&[]), SValue::string("body"), integer(4)],
    )
    .unwrap();
    assert_eq!(request.slot, 1);
    assert_eq!(request.name, "net.post");
    assert_eq!(request.input.get("url"), Some(&SValue::string("https://x")));
    assert_eq!(request.input.get("headers"), Some(&obj(&[])));
    assert_eq!(request.input.get("body"), Some(&SValue::string("body")));
    assert_eq!(request.input.get("entity_id"), Some(&integer(e)));
}

#[test]
fn doubles_are_left_to_the_host() {
    let mut runtime = ViwoRuntime::new(WorldStorage::in_memory().unwrap());
    let e = runtime.storage.create_entity(obj(&[]), None).unwrap();
    let half = SExpr::call(
        "math.div",
        vec![SExpr::number(1.0f64.to_bits()), SExpr::number(2.0f64.to_bits())],
    );
    runtime.storage.add_verb(e, "half", &half).unwrap();
    let mut host = Door::new(RecordingHost { seen: vec![] });
    assert_eq!(
        runtime.execute_verb(&mut host, e, "half", vec![], None).unwrap(),
        SValue::Number(Number::Float(0.5f64.to_bits()))
    );
    // A host that knows no doubles answers with NaN.
    match runtime.execute_verb(&mut Door::new(ExactHost {}), e, "half", vec![], None).unwrap() {
        SValue::Number(Number::Float(bits)) => assert!(f64::from_bits(bits).is_nan()),
        other => panic!("expected a double, got {:?}", other),
    }
    // What the host gives back as a safe integer is held as one.
    let sum = SExpr::call(
        "math.add",
        vec![SExpr::number(0.5f64.to_bits()), SExpr::number(1.5f64.to_bits())],
    );
    runtime.storage.add_verb(e, "sum", &sum).unwrap();
    assert_eq!(
        runtime.execute_verb(&mut host, e, "sum", vec![], None).unwrap(),
        integer(2)
    );
}

#[test]
fn the_door_hands_on_what_the_host_answers() {
    let mut door = Door::new(RecordingHost { seen: vec![] });
    assert_eq!(
        door.arithmetic(MathOp::Div, Number::Int(1), Number::Int(4)),
        Number::Float(0.25f64.to_bits())
    );
    assert_eq!(
        door.negate(Number::Float(0.5f64.to_bits())),
        Number::Float((-0.5f64).to_bits())
    );
    assert_eq!(
        door.compare(Number::Float(0.5f64.to_bits()), Number::Int(1)),
        Comparison::Less
    );
    assert_eq!(
        door.compare(Number::Float(f64::NAN.to_bits()), Number::Int(1)),
        Comparison::Unordered
    );
    assert!(door.host().seen.is_empty());
    let request = PluginRequest {
        slot: 0,
        entity_id: 1,
        name: "fs.read".to_string(),
        input: obj(&[
            ("capability", path_capability(1, "/tmp/sandbox")),
            ("entity_id", integer(1)),
            ("path", SValue::string("/tmp/sandbox/a.txt")),
        ]),
    };
    assert_eq!(door.invoke(&request).status, 0);
    assert_eq!(door.host().seen.len(), 1);
    // The host comes back as the calls left it.
    let host = door.into_host();
    assert_eq!(host.seen[0].0, "fs.read");
}

#[test]
fn plugins_register_their_functions_in_order() {
    let mut registry = init_registry();
    viwo::fs::register_functions(&mut registry);
    let names: Vec<String> = (0..registry.count()).map(|i| registry.function(i).name.clone()).collect();
    assert_eq!(
        names,
        vec!["fs.read", "fs.write", "fs.list", "fs.stat", "fs.exists", "fs.mkdir", "fs.remove"]
    );
    let kinds: Vec<String> = (0..registry.count()).map(|i| registry.function(i).kind.clone()).collect();
    assert_eq!(
        kinds,
        vec!["fs.read", "fs.write", "fs.read", "fs.read", "fs.read", "fs.write", "fs.write"]
    );
    assert_eq!(registry.function(1).params, vec!["path", "content"]);
    viwo::sqlite::register_functions(&mut registry);
    viwo::net::register_functions(&mut registry);
    let names: Vec<String> = (7..registry.count()).map(|i| registry.function(i).name.clone()).collect();
    assert_eq!(names, vec!["sqlite.query", "sqlite.execute", "net.get", "net.post"]);
    assert_eq!(registry.function(7).params, vec!["path", "query", "params"]);
    assert_eq!(registry.function(9).kind, "net");
    // A name that is there keeps its slot; the others still come in order.
    let mut registry = init_registry();
    registry.register_plugin_function("net.post", "old", vec![]);
    viwo::net::register_functions(&mut registry);
    assert_eq!(registry.lookup("net.post"), Some(0));
    assert_eq!(registry.lookup("net.get"), Some(1));
    assert_eq!(registry.function(0).kind, "net");
}

#[test]
fn a_function_that_no_plugin_registered_is_a_plugin_error() {
    let mut world = WorldStorage::in_memory().unwrap();
    let e = world.create_entity(obj(&[]), None).unwrap();
    let registry = init_registry();
    let mut host = Door::new(RecordingHost { seen: vec![] });
    let ctx = ExecutionContext {
        this: SValue::Null,
        this_id: e,
        caller_id: None,
        args: vec![],
        now_ms: 0,
    };
    match call_plugin_function(&world, &registry, &mut host, &ctx, "x.y", &vec![]) {
        Err(Signal::Fail(ExecutionError::PluginError(text))) => {
            assert_eq!(text, "Plugin function 'x.y' not registered")
        }
        _ => panic!("expected a plugin error"),
    }
    assert!(host.host().seen.is_empty());
    assert!(!host.was_asked());
}

#[test]
fn the_door_remembers_whether_the_host_was_asked() {
    let mut runtime = ViwoRuntime::new(WorldStorage::in_memory().unwrap());
    let e = runtime.storage.create_entity(obj(&[]), None).unwrap();
    let three = SExpr::call("math.add", vec![SExpr::integer(1), SExpr::integer(2)]);
    let half = SExpr::call("math.div", vec![SExpr::integer(1), SExpr::integer(2)]);
    runtime.storage.add_verb(e, "three", &three).unwrap();
    runtime.storage.add_verb(e, "half", &half).unwrap();
    let mut host = Door::new(RecordingHost { seen: vec![] });
    assert_eq!(runtime.execute_verb(&mut host, e, "three", vec![], None).unwrap(), integer(3));
    assert!(!host.was_asked());
    assert_eq!(
        runtime.execute_verb(&mut host, e, "half", vec![], None).unwrap(),
        SValue::Number(Number::Float(0.5f64.to_bits()))
    );
    assert!(host.was_asked());
}

#[test]
fn an_expression_on_its_own_is_exact_or_an_error() {
    let call = |op: &str, a: i64, b: i64| SExpr::call(op, vec![SExpr::integer(a), SExpr::integer(b)]);
    assert_eq!(execute(&call("math.add", 1, 2)).unwrap(), integer(3));
    assert_eq!(execute(&call("math.div", 6, 3)).unwrap(), integer(2));
    assert_eq!(execute(&call("math.div", -6, 3)).unwrap(), integer(-2));
    assert_eq!(execute(&call("math.div", 6, -3)).unwrap(), integer(-2));
    assert_eq!(execute(&call("math.div", -6, -3)).unwrap(), integer(2));
    assert_eq!(execute(&call("math.mod", 7, 3)).unwrap(), integer(1));
    // What needs double arithmetic is refused, not made up.
    for needs_host in [
        call("math.div", 1, 2),
        call("math.div", 0, -3),
        call("math.div", 1, 0),
        call("math.mod", -7, 3),
        call("math.pow", 2, 3),
        SExpr::call("math.add", vec![SExpr::number(0.5f64.to_bits()), SExpr::integer(1)]),
        SExpr::call(
            "bool.lt",
            vec![SExpr::number(0.5f64.to_bits()), SExpr::integer(1)],
        ),
    ] {
        assert!(matches!(execute(&needs_host), Err(ExecutionError::HostRequired)));
    }
    assert_eq!(ExecutionError::HostRequired.message(), "a host is required");
}

#[test]
fn every_run_keeps_the_world_and_asks_plugins_only_with_a_capability() {
    let mut runtime = ViwoRuntime::new(WorldStorage::in_memory().unwrap());
    viwo::fs::register_functions(&mut runtime.registry);
    let e = runtime.storage.create_entity(obj(&[]), None).unwrap();
    // The verb first turns to the host for a double, then creates an
    // entity, schedules a task and asks for a file without a capability.
    let verb = SExpr::call(
        "std.seq",
        vec![
            SExpr::call("math.div", vec![SExpr::integer(1), SExpr::integer(2)]),
            SExpr::call("create", vec![SExpr::Object(vec![])]),
            SExpr::call(
                "schedule",
                vec![SExpr::string("later"), SExpr::List(vec![]), SExpr::integer(5)],
            ),
            SExpr::call("fs.read", vec![SExpr::string("/tmp/sandbox/a.txt")]),
        ],
    );
    runtime.storage.add_verb(e, "go", &verb).unwrap();
    let mut host = Door::new(RecordingHost { seen: vec![] });
    assert!(matches!(
        runtime.execute_verb(&mut host, e, "go", vec![], None),
        Err(ExecutionError::MissingCapability(_))
    ));
    assert!(host.was_asked());
    assert!(host.host().seen.is_empty());
    assert_eq!(runtime.storage.verbs().len(), 1);
    assert_eq!(runtime.storage.capabilities().len(), 0);
    assert_eq!(runtime.storage.entities().len(), 2);
    assert_eq!(runtime.storage.entities()[0].id, e);
    assert_eq!(runtime.storage.tasks().len(), 1);
}

#[test]
fn an_fs_operation_is_permitted_only_after_the_check() {
    let request = |owner: i64, path: &str| {
        parse_request(
            &obj(&[
                ("capability", path_capability(owner, "/tmp/sandbox")),
                ("entity_id", integer(1)),
                ("path", SValue::string(path)),
                ("content", SValue::string("hello")),
            ]),
            true,
        )
        .unwrap()
    };
    let ok = permit(
        FsOp::Write,
        request(1, "/tmp/sandbox/new/a.txt"),
        Some("/tmp/sandbox/new/a.txt"),
        Some("/tmp/sandbox"),
    )
    .unwrap();
    assert_eq!(ok.op(), FsOp::Write);
    assert_eq!(ok.path(), "/tmp/sandbox/new/a.txt");
    assert_eq!(ok.content(), "hello");
    // Another entity's capability, a path outside, a path that cannot
    // be resolved: nothing is permitted, whatever the operation.
    for op in [FsOp::Exists, FsOp::Mkdir, FsOp::Write, FsOp::Read, FsOp::Remove] {
        assert_eq!(
            permit(op, request(2, "/tmp/sandbox/a"), Some("/tmp/sandbox/a"), Some("/tmp/sandbox"))
                .unwrap_err(),
            "fs: capability does not belong to current entity"
        );
        assert!(permit(op, request(1, "/etc/passwd"), Some("/etc/passwd"), Some("/tmp/sandbox"))
            .unwrap_err()
            .contains("not allowed"));
        assert_eq!(
            permit(op, request(1, "/tmp/sandbox/../x"), None, Some("/tmp/sandbox")).unwrap_err(),
            "fs: path does not exist: /tmp/sandbox/../x"
        );
    }
    assert_eq!(
        permit(FsOp::Exists, request(1, "/tmp/sandbox"), Some("/tmp/sandbox"), Some("/tmp/sandbox"))
            .unwrap()
            .content(),
        "hello"
    );
}

#[test]
fn net_and_sql_requests_are_read_field_by_field() {
    let input = obj(&[
        ("capability", url_capability(3, "https://example.com")),
        ("entity_id", integer(3)),
        ("url", SValue::string("https://example.com/a")),
        (
            "headers",
            obj(&[("accept", SValue::string("text/plain")), ("n", integer(1)), ("x", SValue::string("y"))]),
        ),
    ]);
    let request = viwo::net::parse_request(&input).unwrap();
    assert_eq!(request.entity_id, 3);
    assert_eq!(request.url, "https://example.com/a");
    assert_eq!(
        request.headers,
        vec![("accept".to_string(), "text/plain".to_string()), ("x".to_string(), "y".to_string())]
    );
    assert_eq!(request.body, "");
    assert_eq!(request.capability, url_capability(3, "https://example.com"));
    assert_eq!(
        viwo::net::parse_request(&obj(&[("entity_id", integer(3))])).unwrap_err(),
        "Missing url"
    );
    assert_eq!(
        viwo::net::parse_request(&obj(&[("url", SValue::string("u"))])).unwrap_err(),
        "Missing entity_id"
    );
    let with_body = obj(&[
        ("entity_id", integer(3)),
        ("url", SValue::string("u")),
        ("body", SValue::string("b")),
    ]);
    let request = viwo::net::parse_request(&with_body).unwrap();
    assert_eq!(request.body, "b");
    assert_eq!(request.capability, SValue::Null);
    assert!(request.headers.is_empty());

    let input = obj(&[
        ("entity_id", integer(4)),
        ("path", SValue::string("/tmp/a.db")),
        ("query", SValue::string("select ?")),
        ("params", SValue::Array(vec![integer(1), SValue::string("two")])),
    ]);
    let request = viwo::sqlite::parse_request(&input).unwrap();
    assert_eq!(request.entity_id, 4);
    assert_eq!(request.path, "/tmp/a.db");
    assert_eq!(request.query, "select ?");
    assert_eq!(request.params, vec![integer(1), SValue::string("two")]);
    let bare = obj(&[
        ("entity_id", integer(4)),
        ("path", SValue::string("/tmp/a.db")),
        ("query", SValue::string("select 1")),
        ("params", SValue::string("none")),
    ]);
    assert!(viwo::sqlite::parse_request(&bare).unwrap().params.is_empty());
    assert_eq!(
        viwo::sqlite::parse_request(&obj(&[("entity_id", integer(4)), ("path", SValue::string("p"))]))
            .unwrap_err(),
        "Missing query"
    );
    assert_eq!(
        viwo::sqlite::parse_request(&obj(&[("entity_id", integer(4))])).unwrap_err(),
        "Missing path"
    );
}

#[test]
fn a_program_without_writing_opcodes_leaves_the_world_as_it_was() {
    let mut runtime = ViwoRuntime::new(WorldStorage::in_memory().unwrap());
    viwo::fs::register_functions(&mut runtime.registry);
    let e = runtime
        .storage
        .create_entity(obj(&[("n", integer(1))]), None)
        .unwrap();
    // Doubles, variables, a loop, a function, a failed plugin call that
    // is caught: nothing of it writes.
    let verb = SExpr::call(
        "std.seq",
        vec![
            SExpr::call("std.let", vec![SExpr::string("x"), SExpr::number(0.5f64.to_bits())]),
            SExpr::call(
                "std.for",
                vec![
                    SExpr::string("i"),
                    SExpr::call("list.new", vec![SExpr::integer(1), SExpr::integer(2)]),
                    SExpr::call(
                        "std.set",
                        vec![
                            SExpr::string("x"),
                            SExpr::call(
                                "math.mul",
                                vec![
                                    SExpr::call("std.var", vec![SExpr::string("x")]),
                                    SExpr::call("std.var", vec![SExpr::string("i")]),
                                ],
                            ),
                        ],
                    ),
                ],
            ),
            SExpr::call(
                "std.try",
                vec![
                    SExpr::call("fs.read", vec![SExpr::string("/tmp/sandbox/a.txt")]),
                    SExpr::string("err"),
                    SExpr::Null,
                ],
            ),
            SExpr::call("std.var", vec![SExpr::string("x")]),
        ],
    );
    runtime.storage.add_verb(e, "look", &verb).unwrap();
    let entities = runtime.storage.entities().clone();
    let mut host = Door::new(RecordingHost { seen: vec![] });
    let got = runtime.execute_verb(&mut host, e, "look", vec![], None);
    assert!(host.was_asked());
    assert!(host.host().seen.is_empty());
    assert_eq!(runtime.storage.entities().len(), entities.len());
    assert_eq!(runtime.storage.entities()[0].props, entities[0].props);
    assert_eq!(runtime.storage.tasks().len(), 0);
    assert_eq!(runtime.storage.verbs().len(), 1);
    // 0.5 * 1 * 2 is 1; whether the uncaught failure or the value comes
    // back depends on `std.try`, which catches what is thrown.
    match got {
        Ok(v) => assert_eq!(v, integer(1)),
        Err(e) => assert!(matches!(e, ExecutionError::MissingCapability(_))),
    }
}
