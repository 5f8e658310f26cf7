//! The JSON-RPC facade: what a request asks for, and the response that
//! answers it.
//!
//! The library sees requests and responses as values. Reading them from a
//! socket and writing them to one is the server's business.

use crate::entity::{EntityId, EntityView};
use crate::error::ExecutionError;
use crate::eval::{carried, lemma_kept_same, lemma_kept_world, mark, Door, Host};
use crate::number::Number;
use crate::opcodes::{resolve_entity, resolved};
use crate::plugin::{get_integer, get_text, integer_field, object_with, single_field, text_field};
use crate::runtime::ViwoRuntime;
use crate::storage::{find_entity, StorageError};
use crate::value::{
    copy_items, items_view, lemma_items_view, lemma_pairs_view, pairs_view, SValue, SValueView,
};
use vstd::prelude::*;

verus! {

/// Where the server listens and which database it opens.
#[derive(Debug)]
pub struct ServerConfig {
    pub host: String,
    pub port: u16,
    pub db_path: String,
}

impl Clone for ServerConfig {
    fn clone(&self) -> (r: ServerConfig)
        ensures
            r.host@ == self.host@,
            r.port == self.port,
            r.db_path@ == self.db_path@,
    {
        ServerConfig { host: self.host.clone(), port: self.port, db_path: self.db_path.clone() }
    }
}

impl Default for ServerConfig {
    fn default() -> (r: ServerConfig)
        ensures
            r.host@ == "127.0.0.1"@,
            r.port == 8080,
            r.db_path@ == "world.sqlite"@,
    {
        ServerConfig {
            host: "127.0.0.1".to_owned(),
            port: 8080,
            db_path: "world.sqlite".to_owned(),
        }
    }
}

/// The code of every error response.
pub const ERROR_CODE: i64 = -32000;

/// The response that carries a result.
pub open spec fn result_response(result: SValueView, id: SValueView) -> SValueView {
    SValueView::Object(
        seq![("jsonrpc"@, SValueView::String("2.0"@)), ("result"@, result), ("id"@, id)],
    )
}

/// The response that carries an error.
pub open spec fn failure_response(message: Seq<char>, id: SValueView) -> SValueView {
    SValueView::Object(
        seq![
            ("jsonrpc"@, SValueView::String("2.0"@)),
            (
                "error"@,
                SValueView::Object(
                    seq![
                        ("code"@, SValueView::Number(Number::Int(ERROR_CODE))),
                        ("message"@, SValueView::String(message)),
                    ],
                ),
            ),
            ("id"@, id),
        ],
    )
}

/// The response that carries `result` for the request with id `id`.
pub fn success_response(result: SValue, id: SValue) -> (r: SValue)
    ensures
        r@ == result_response(result@, id@),
{
    let mut pairs: Vec<(String, SValue)> = Vec::new();
    pairs.push(("jsonrpc".to_owned(), SValue::String("2.0".to_owned())));
    pairs.push(("result".to_owned(), result));
    pairs.push(("id".to_owned(), id));
    proof {
        lemma_pairs_view(pairs@);
        assert(pairs_view(pairs@) =~= result_response(result@, id@)->Object_0);
    }
    SValue::Object(pairs)
}

/// The response that reports the failure `message` for the request with
/// id `id`.
pub fn error_response(message: &str, id: SValue) -> (r: SValue)
    ensures
        r@ == failure_response(message@, id@),
{
    let mut error: Vec<(String, SValue)> = Vec::new();
    error.push(("code".to_owned(), SValue::Number(Number::Int(ERROR_CODE))));
    error.push(("message".to_owned(), SValue::String(message.to_owned())));
    proof {
        lemma_pairs_view(error@);
        assert(pairs_view(error@) =~= seq![
            ("code"@, SValueView::Number(Number::Int(ERROR_CODE))),
            ("message"@, SValueView::String(message@)),
        ]);
    }
    let mut pairs: Vec<(String, SValue)> = Vec::new();
    pairs.push(("jsonrpc".to_owned(), SValue::String("2.0".to_owned())));
    pairs.push(("error".to_owned(), SValue::Object(error)));
    pairs.push(("id".to_owned(), id));
    proof {
        lemma_pairs_view(pairs@);
        assert(pairs_view(pairs@) =~= failure_response(message@, id@)->Object_0);
    }
    SValue::Object(pairs)
}

/// What a request asks for.
#[derive(Debug)]
pub enum RpcCall {
    Ping,
    GetEntity { id: EntityId },
    CreateEntity { props: SValue, prototype_id: Option<EntityId> },
    CallVerb { entity_id: EntityId, verb: String, args: Vec<SValue>, caller_id: Option<EntityId> },
    Unknown { method: String },
}

/// The mathematical value of an `RpcCall`.
pub ghost enum RpcCallView {
    Ping,
    GetEntity { id: EntityId },
    CreateEntity { props: SValueView, prototype_id: Option<EntityId> },
    CallVerb {
        entity_id: EntityId,
        verb: Seq<char>,
        args: Seq<SValueView>,
        caller_id: Option<EntityId>,
    },
    Unknown { method: Seq<char> },
}

impl View for RpcCall {
    type V = RpcCallView;

    open spec fn view(&self) -> RpcCallView {
        match self {
            RpcCall::Ping => RpcCallView::Ping,
            RpcCall::GetEntity { id } => RpcCallView::GetEntity { id: *id },
            RpcCall::CreateEntity { props, prototype_id } => RpcCallView::CreateEntity {
                props: props@,
                prototype_id: *prototype_id,
            },
            RpcCall::CallVerb { entity_id, verb, args, caller_id } => RpcCallView::CallVerb {
                entity_id: *entity_id,
                verb: verb@,
                args: items_view(args@),
                caller_id: *caller_id,
            },
            RpcCall::Unknown { method } => RpcCallView::Unknown { method: method@ },
        }
    }
}

/// The parameters of a request; null where it has none.
pub open spec fn params_of(request: SValueView) -> SValueView {
    match request.field("params"@) {
        Some(p) => p,
        None => SValueView::Null,
    }
}

/// The id of a request; null where it has none.
pub open spec fn id_of(request: SValueView) -> SValueView {
    match request.field("id"@) {
        Some(id) => id,
        None => SValueView::Null,
    }
}

/// What a request asks for, or what it lacks. A method that is not known
/// is a call of its own; properties default to an empty object, arguments
/// to none.
pub open spec fn call_of(request: SValueView) -> Result<RpcCallView, Seq<char>> {
    let params = params_of(request);
    match text_field(request, "method"@) {
        None => Err("Missing method"@),
        Some(method) => if method == "ping"@ {
            Ok(RpcCallView::Ping)
        } else if method == "get_entity"@ {
            match integer_field(params, "id"@) {
                Some(id) => Ok(RpcCallView::GetEntity { id }),
                None => Err("Missing entity id"@),
            }
        } else if method == "create_entity"@ {
            Ok(
                RpcCallView::CreateEntity {
                    props: match params.field("props"@) {
                        Some(props) => props,
                        None => SValueView::Object(Seq::empty()),
                    },
                    prototype_id: integer_field(params, "prototype_id"@),
                },
            )
        } else if method == "call_verb"@ {
            match integer_field(params, "entity_id"@) {
                None => Err("Missing entity_id"@),
                Some(entity_id) => match text_field(params, "verb"@) {
                    None => Err("Missing verb name"@),
                    Some(verb) => Ok(
                        RpcCallView::CallVerb {
                            entity_id,
                            verb,
                            args: match params.field("args"@) {
                                Some(SValueView::Array(items)) => items,
                                _ => Seq::empty(),
                            },
                            caller_id: integer_field(params, "caller_id"@),
                        },
                    ),
                },
            }
        } else {
            Ok(RpcCallView::Unknown { method })
        },
    }
}

/// The id of `request`; null where it has none.
pub fn request_id(request: &SValue) -> (r: SValue)
    ensures
        r@ == id_of(request@),
{
    match request.get("id") {
        Some(id) => id.clone(),
        None => SValue::Null,
    }
}

/// Reads what `request` asks for.
pub fn parse_call(request: &SValue) -> (r: Result<RpcCall, String>)
    ensures
        match r {
            Ok(call) => call_of(request@) == Ok::<RpcCallView, Seq<char>>(call@),
            Err(e) => call_of(request@) == Err::<RpcCallView, Seq<char>>(e@),
        },
{
    let null = SValue::Null;
    let params = match request.get("params") {
        Some(p) => p,
        None => &null,
    };
    let method = match get_text(request, "method") {
        Some(method) => method,
        None => {
            return Err("Missing method".to_owned());
        },
    };
    if crate::text::str_eq(method, "ping") {
        Ok(RpcCall::Ping)
    } else if crate::text::str_eq(method, "get_entity") {
        match get_integer(params, "id") {
            Some(id) => Ok(RpcCall::GetEntity { id }),
            None => Err("Missing entity id".to_owned()),
        }
    } else if crate::text::str_eq(method, "create_entity") {
        let props = match params.get("props") {
            Some(props) => props.clone(),
            None => SValue::object(),
        };
        Ok(RpcCall::CreateEntity { props, prototype_id: get_integer(params, "prototype_id") })
    } else if crate::text::str_eq(method, "call_verb") {
        let entity_id = match get_integer(params, "entity_id") {
            Some(id) => id,
            None => {
                return Err("Missing entity_id".to_owned());
            },
        };
        let verb = match get_text(params, "verb") {
            Some(verb) => verb.to_owned(),
            None => {
                return Err("Missing verb name".to_owned());
            },
        };
        let args: Vec<SValue> = match params.get("args") {
            Some(SValue::Array(items)) => {
                let copy = SValue::Array(copy_items(items));
                match copy {
                    SValue::Array(items) => items,
                    _ => Vec::new(),
                }
            },
            _ => Vec::new(),
        };
        proof {
            lemma_items_view(args@);
        }
        Ok(
            RpcCall::CallVerb {
                entity_id,
                verb,
                args,
                caller_id: get_integer(params, "caller_id"),
            },
        )
    } else {
        Ok(RpcCall::Unknown { method: method.to_owned() })
    }
}

/// The text of the error for a method that is not known.
pub open spec fn unknown_method_text(method: Seq<char>) -> Seq<char> {
    "Unknown method: "@ + method
}

/// Whether `r` answers `request`, the runtime going from `before` to
/// `after`. A request that names no method or lacks a parameter that its
/// method needs is refused with a text and changes nothing; every other
/// request has a response. A verb call is answered with its result, or
/// with the message of the error that it failed with; where the call
/// turns to the host, which of the two is not said.
pub open spec fn answered(
    before: &ViwoRuntime,
    after: &ViwoRuntime,
    request: SValueView,
    r: Result<SValue, String>,
) -> bool {
    match call_of(request) {
        Err(e) => r is Err && r->Err_0@ == e && after.storage@ == before.storage@,
        Ok(call) => r is Ok && (match call {
            RpcCallView::Ping => r->Ok_0@ == result_response(
                SValueView::String("pong"@),
                id_of(request),
            ) && after.storage@ == before.storage@,
            RpcCallView::GetEntity { id } => after.storage@ == before.storage@
                && r->Ok_0@ == (match find_entity(before.storage@.entities, id as int) {
                Some(e) => result_response(
                    resolved(before.storage@, e),
                    id_of(request),
                ),
                None => failure_response("Entity not found"@, id_of(request)),
            }),
            RpcCallView::CreateEntity { props, prototype_id } => {
                let world = before.storage@;
                if (prototype_id matches Some(p) ==> world.contains(p as int))
                    && world.next_entity_id < i64::MAX {
                    &&& r->Ok_0@ == result_response(
                        single_field(
                            "id"@,
                            SValueView::Number(Number::Int(world.next_entity_id as i64)),
                        ),
                        id_of(request),
                    )
                    &&& after.storage@.entities == world.entities.push(
                        EntityView {
                            id: world.next_entity_id,
                            prototype_id: match prototype_id {
                                Some(p) => Some(p as int),
                                None => None,
                            },
                            props,
                        },
                    )
                } else {
                    &&& after.storage@ == world
                    &&& r->Ok_0@ == failure_response(
                        (match prototype_id {
                            Some(p) if !world.contains(p as int) => StorageError::EntityNotFound(
                                p,
                            ),
                            _ => StorageError::IdsExhausted,
                        }).message_text(),
                        id_of(request),
                    )
                }
            },
            RpcCallView::CallVerb { entity_id, verb, args, caller_id } => {
                let (end, o) = crate::semantics::verb_spec(
                    crate::runtime::start_state(before.budget, before.storage@),
                    before.registry.names(),
                    before.registry.kinds(),
                    entity_id as int,
                    verb,
                    args,
                    match caller_id {
                        Some(id) => Some(id as int),
                        None => None,
                    },
                    before.now_ms as int,
                    crate::eval::MAX_DEPTH as nat,
                );
                &&& r->Ok_0@.field("jsonrpc"@) == Some(SValueView::String("2.0"@))
                &&& (exists|v: SValueView| r->Ok_0@ == #[trigger] result_response(v, id_of(request)))
                    || (exists|e: ExecutionError|
                    r->Ok_0@ == failure_response(#[trigger] e.message_text(), id_of(request)))
                &&& o is Host || (after.storage@ == end.world && (
                match crate::runtime::concluded(o) {
                    crate::semantics::Outcome::Done(v) => r->Ok_0@ == result_response(
                        v,
                        id_of(request),
                    ),
                    crate::semantics::Outcome::Fail(f) => exists|e: ExecutionError|
                        #[trigger] crate::eval::failure_of(e) == f && r->Ok_0@ == failure_response(
                            e.message_text(),
                            id_of(request),
                        ),
                    _ => false,
                }))
            },
            RpcCallView::Unknown { method } => r->Ok_0@ == failure_response(
                unknown_method_text(method),
                id_of(request),
            ) && after.storage@ == before.storage@,
        }),
    }
}

/// Answers one request. `Err` is for a request that names no method or
/// lacks a parameter that its method needs: such a request has no response
/// of its own, and the server reports the text under a null id.
pub fn handle_message<H: Host>(runtime: &mut ViwoRuntime, host: &mut Door<H>, request: &SValue) -> (r:
    Result<SValue, String>)
    requires
        old(runtime).storage.wf(),
    ensures
        final(runtime).storage.wf(),
        final(runtime).registry == old(runtime).registry,
        final(runtime).budget == old(runtime).budget,
        final(runtime).now_ms == old(runtime).now_ms,
        answered(old(runtime), final(runtime), request@, r),
        carried(
            &old(runtime).storage,
            old(host),
            &final(runtime).storage,
            final(host),
            &old(runtime).registry,
        ),
        !(call_of(request@) matches Ok(RpcCallView::CallVerb { .. })) ==> *final(host) == *old(host),
{
    let ghost start = mark(&runtime.storage, host);
    proof {
        lemma_kept_same(start, runtime.registry.kinds(), runtime.registry.params());
    }
    let id = request_id(request);
    let call = match parse_call(request) {
        Ok(call) => call,
        Err(e) => {
            return Err(e);
        },
    };
    match call {
        RpcCall::Ping => Ok(success_response(SValue::String("pong".to_owned()), id)),
        RpcCall::GetEntity { id: entity_id } => match resolve_entity(&runtime.storage, entity_id) {
            Some(entity) => Ok(success_response(entity, id)),
            None => Ok(error_response("Entity not found", id)),
        },
        RpcCall::CreateEntity { props, prototype_id } => {
            proof {
                crate::opcodes::lemma_reached_same(runtime.storage@);
                crate::opcodes::lemma_reached_by(
                    runtime.storage@,
                    crate::opcodes::Change::Create {
                        props: props@,
                        prototype_id: match prototype_id {
                            Some(p) => Some(p as int),
                            None => None,
                        },
                    },
                );
            }
            let made = runtime.storage.create_entity(props, prototype_id);
            proof {
                lemma_kept_world(
                    start,
                    runtime.storage@,
                    runtime.registry.kinds(),
                    runtime.registry.params(),
                );
            }
            match made {
                Ok(new_id) => Ok(
                    success_response(object_with("id", SValue::Number(Number::Int(new_id))), id),
                ),
                Err(e) => {
                    let text = e.message();
                    Ok(error_response(text.as_str(), id))
                },
            }
        },
        RpcCall::CallVerb { entity_id, verb, args, caller_id } => match runtime.execute_verb(
            host,
            entity_id,
            verb.as_str(),
            args,
            caller_id,
        ) {
            Ok(v) => {
                proof {
                    lemma_response_has_version(true, v@, Seq::empty(), id@);
                }
                Ok(success_response(v, id))
            },
            Err(e) => {
                let text = e.message();
                proof {
                    lemma_response_has_version(false, SValueView::Null, text@, id@);
                    lemma_response_has_error(text@, id@);
                }
                Ok(error_response(text.as_str(), id))
            },
        },
        RpcCall::Unknown { method } => {
            let mut text = "Unknown method: ".to_owned();
            text.append(method.as_str());
            Ok(error_response(text.as_str(), id))
        },
    }
}

/// What a text frame is answered with: the response to the request that
/// the text holds; an error response under a null id where the text is not
/// JSON, names no method or lacks a parameter that its method needs.
pub fn handle_text<H: Host>(runtime: &mut ViwoRuntime, host: &mut Door<H>, text: &str) -> (r: SValue)
    requires
        old(runtime).storage.wf(),
    ensures
        final(runtime).storage.wf(),
        final(runtime).registry == old(runtime).registry,
        final(runtime).budget == old(runtime).budget,
        final(runtime).now_ms == old(runtime).now_ms,
        carried(
            &old(runtime).storage,
            old(host),
            &final(runtime).storage,
            final(host),
            &old(runtime).registry,
        ),
        match crate::json::parsed_json(text@) {
            Err(e) => {
                &&& r@ == failure_response(e, SValueView::Null)
                &&& final(runtime).storage@ == old(runtime).storage@
            },
            Ok(request) => exists|inner: Result<SValue, String>|
                {
                    &&& #[trigger] answered(old(runtime), final(runtime), request, inner)
                    &&& r@ == (match inner {
                        Ok(response) => response@,
                        Err(e) => failure_response(e@, SValueView::Null),
                    })
                },
        },
{
    proof {
        lemma_kept_same(
            mark(&runtime.storage, host),
            runtime.registry.kinds(),
            runtime.registry.params(),
        );
    }
    match crate::json::parse_json(text) {
        Err(e) => error_response(e.as_str(), SValue::Null),
        Ok(request) => {
            let inner = handle_message(runtime, host, &request);
            let ghost given = inner;
            let r = match inner {
                Ok(response) => response,
                Err(e) => error_response(e.as_str(), SValue::Null),
            };
            proof {
                assert(answered(old(runtime), runtime, request@, given));
            }
            r
        },
    }
}

/// An error response has a field `error`.
pub proof fn lemma_response_has_error(message: Seq<char>, id: SValueView)
    ensures
        failure_response(message, id).field("error"@) is Some,
{
    let pairs = failure_response(message, id)->Object_0;
    let keys = crate::assoc::view_keys(pairs);
    reveal_strlit("error");
    reveal_strlit("id");
    reveal_strlit("jsonrpc");
    assert("error"@.len() == 5 && "id"@.len() == 2 && "jsonrpc"@.len() == 7);
    assert(keys[1] == "error"@);
    assert(keys[2] == "id"@);
    crate::assoc::lemma_last_index_is(keys, "error"@, 1);
}

/// Every response says that it speaks version 2.0.
pub proof fn lemma_response_has_version(ok: bool, result: SValueView, message: Seq<char>, id: SValueView)
    ensures
        ok ==> result_response(result, id).field("jsonrpc"@) == Some(SValueView::String("2.0"@)),
        !ok ==> failure_response(message, id).field("jsonrpc"@) == Some(SValueView::String("2.0"@)),
{
    reveal_strlit("error");
    reveal_strlit("result");
    reveal_strlit("id");
    reveal_strlit("jsonrpc");
    assert("error"@.len() == 5 && "id"@.len() == 2 && "jsonrpc"@.len() == 7 && "result"@.len() == 6);
    if ok {
        let keys = crate::assoc::view_keys(result_response(result, id)->Object_0);
        assert(keys[0] == "jsonrpc"@ && keys[1] == "result"@ && keys[2] == "id"@);
        crate::assoc::lemma_last_index_is(keys, "jsonrpc"@, 0);
    } else {
        let keys = crate::assoc::view_keys(failure_response(message, id)->Object_0);
        assert(keys[0] == "jsonrpc"@ && keys[1] == "error"@ && keys[2] == "id"@);
        crate::assoc::lemma_last_index_is(keys, "jsonrpc"@, 0);
    }
}

} // verus!
