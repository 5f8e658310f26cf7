//! Requests and responses of the JSON-RPC facade.

use viwo::eval::{ExactHost, Door};
use viwo::ir::SExpr;
use viwo::number::Number;
use viwo::rpc::{
    error_response, handle_message, parse_call, success_response, RpcCall, ServerConfig,
};
use viwo::runtime::ViwoRuntime;
use viwo::storage::WorldStorage;
use viwo::value::SValue;

fn integer(n: i64) -> SValue {
    SValue::Number(Number::Int(n))
}

fn obj(pairs: &[(&str, SValue)]) -> SValue {
    SValue::Object(
        pairs
            .iter()
            .map(|(k, v)| (k.to_string(), v.clone()))
            .collect(),
    )
}

fn request(method: &str, params: SValue, id: i64) -> SValue {
    obj(&[
        ("jsonrpc", SValue::string("2.0")),
        ("method", SValue::string(method)),
        ("params", params),
        ("id", integer(id)),
    ])
}

fn runtime() -> ViwoRuntime {
    ViwoRuntime::new(WorldStorage::in_memory().unwrap())
}

fn ask(runtime: &mut ViwoRuntime, request: &SValue) -> Result<SValue, String> {
    handle_message(runtime, &mut Door::new(ExactHost {}), request)
}

fn failure(message: &str, id: SValue) -> SValue {
    obj(&[
        ("jsonrpc", SValue::string("2.0")),
        (
            "error",
            obj(&[("code", integer(-32000)), ("message", SValue::string(message))]),
        ),
        ("id", id),
    ])
}

#[test]
fn ping_is_answered_with_pong() {
    let mut rt = runtime();
    assert_eq!(
        ask(&mut rt, &request("ping", SValue::Null, 7)),
        Ok(obj(&[
            ("jsonrpc", SValue::string("2.0")),
            ("result", SValue::string("pong")),
            ("id", integer(7)),
        ]))
    );
    // Without an id the response's id is null.
    assert_eq!(
        ask(&mut rt, &obj(&[("method", SValue::string("ping"))])),
        Ok(success_response(SValue::string("pong"), SValue::Null))
    );
}

#[test]
fn entities_are_created_and_read_flattened() {
    let mut rt = runtime();
    let created = ask(
        &mut rt,
        &request("create_entity", obj(&[("props", obj(&[("name", SValue::string("a"))]))]), 1),
    )
    .unwrap();
    assert_eq!(created, success_response(obj(&[("id", integer(1))]), integer(1)));
    let child = ask(
        &mut rt,
        &request("create_entity", obj(&[("prototype_id", integer(1))]), 2),
    )
    .unwrap();
    assert_eq!(child.get("result"), Some(&obj(&[("id", integer(2))])));
    assert_eq!(rt.storage.get_entity(2).unwrap().props, SValue::object());

    assert_eq!(
        ask(&mut rt, &request("get_entity", obj(&[("id", integer(1))]), 3)),
        Ok(success_response(
            obj(&[
                ("id", integer(1)),
                ("prototype_id", SValue::Null),
                ("name", SValue::string("a")),
            ]),
            integer(3)
        ))
    );
    assert_eq!(
        ask(&mut rt, &request("get_entity", obj(&[("id", integer(9))]), 4)),
        Ok(failure("Entity not found", integer(4)))
    );
    assert_eq!(
        ask(&mut rt, &request("create_entity", obj(&[("prototype_id", integer(9))]), 5)),
        Ok(failure("entity not found: 9", integer(5)))
    );
}

#[test]
fn verbs_are_called_and_failures_are_errors() {
    let mut rt = runtime();
    let e = rt.storage.create_entity(SValue::object(), None).unwrap();
    let second = SExpr::call("std.arg", vec![SExpr::integer(1)]);
    rt.storage.add_verb(e, "second", &second).unwrap();
    let call = request(
        "call_verb",
        obj(&[
            ("entity_id", integer(e)),
            ("verb", SValue::string("second")),
            ("args", SValue::Array(vec![integer(10), integer(20)])),
        ]),
        1,
    );
    assert_eq!(ask(&mut rt, &call), Ok(success_response(integer(20), integer(1))));
    let missing = request(
        "call_verb",
        obj(&[("entity_id", integer(e)), ("verb", SValue::string("nope"))]),
        2,
    );
    assert_eq!(
        ask(&mut rt, &missing),
        Ok(failure("verb 'nope' not found on entity 1", integer(2)))
    );
}

#[test]
fn what_a_request_lacks_is_an_error_of_its_own() {
    let mut rt = runtime();
    assert_eq!(ask(&mut rt, &obj(&[])), Err("Missing method".to_string()));
    assert_eq!(
        ask(&mut rt, &request("get_entity", obj(&[]), 1)),
        Err("Missing entity id".to_string())
    );
    assert_eq!(
        ask(&mut rt, &request("call_verb", obj(&[("verb", SValue::string("v"))]), 1)),
        Err("Missing entity_id".to_string())
    );
    assert_eq!(
        ask(&mut rt, &request("call_verb", obj(&[("entity_id", integer(1))]), 1)),
        Err("Missing verb name".to_string())
    );
    assert_eq!(
        ask(&mut rt, &request("dance", SValue::Null, 9)),
        Ok(failure("Unknown method: dance", integer(9)))
    );
    assert_eq!(error_response("x", SValue::Null), failure("x", SValue::Null));
}

#[test]
fn calls_are_read_with_their_defaults() {
    match parse_call(&request("call_verb", obj(&[
        ("entity_id", integer(4)),
        ("verb", SValue::string("v")),
        ("args", SValue::string("not a list")),
        ("caller_id", integer(2)),
    ]), 1))
    .unwrap()
    {
        RpcCall::CallVerb { entity_id, verb, args, caller_id } => {
            assert_eq!(entity_id, 4);
            assert_eq!(verb, "v");
            assert!(args.is_empty());
            assert_eq!(caller_id, Some(2));
        }
        other => panic!("expected a verb call, got {:?}", other),
    }
    assert!(matches!(
        parse_call(&request("ping", SValue::Null, 1)),
        Ok(RpcCall::Ping)
    ));
}

#[test]
fn the_default_configuration() {
    let config = ServerConfig::default();
    assert_eq!(config.host, "127.0.0.1");
    assert_eq!(config.port, 8080);
    assert_eq!(config.db_path, "world.sqlite");
    let copy = config.clone();
    assert_eq!(copy.host, config.host);
}

#[test]
fn text_frames_are_read_and_answered() {
    let mut rt = runtime();
    let host = &mut Door::new(ExactHost {});
    assert_eq!(
        viwo::rpc::handle_text(&mut rt, host, r#"{"jsonrpc":"2.0","method":"ping","id":3}"#),
        success_response(SValue::string("pong"), integer(3))
    );
    let created = viwo::rpc::handle_text(
        &mut rt,
        host,
        r#"{"method":"create_entity","params":{"props":{"n":1.5,"big":9007199254740993,"l":[true,null,"x"]}},"id":"a"}"#,
    );
    assert_eq!(
        created,
        success_response(obj(&[("id", integer(1))]), SValue::string("a"))
    );
    let props = &rt.storage.get_entity(1).unwrap().props;
    assert_eq!(
        props.get("n"),
        Some(&SValue::Number(Number::Float(1.5f64.to_bits())))
    );
    assert_eq!(props.get("big"), Some(&integer(9007199254740993)));
    assert_eq!(
        props.get("l"),
        Some(&SValue::Array(vec![
            SValue::Bool(true),
            SValue::Null,
            SValue::string("x"),
        ]))
    );
    // What is not JSON, or asks for nothing, is answered under a null id.
    let garbled = viwo::rpc::handle_text(&mut rt, host, "{not json");
    assert_eq!(garbled.get("id"), Some(&SValue::Null));
    assert!(garbled.get("error").is_some());
    assert_eq!(
        viwo::rpc::handle_text(&mut rt, host, r#"{"id":5}"#),
        failure("Missing method", SValue::Null)
    );
}

#[test]
fn plugin_texts_are_read() {
    assert_eq!(
        viwo::json::plugin_input(r#"{"entity_id": 1, "path": "/tmp/a"}"#),
        Ok(obj(&[("entity_id", integer(1)), ("path", SValue::string("/tmp/a"))]))
    );
    let refused = viwo::json::plugin_input("[1,").unwrap_err();
    assert!(refused.starts_with("JSON parse error: "), "{}", refused);

    let reply = viwo::json::read_reply(0, Some(r#"{"content":"hi"}"#));
    assert_eq!(reply.status, 0);
    assert_eq!(reply.output, Some(obj(&[("content", SValue::string("hi"))])));
    assert_eq!(viwo::json::read_reply(-1, Some("oops")).output, None);
    assert_eq!(viwo::json::read_reply(2, None).output, None);
    assert_eq!(viwo::json::read_reply(2, None).status, 2);
}
