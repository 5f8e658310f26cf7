//! Host effects: how a call of a plugin function is prepared, and how the
//! plugin's reply is read.
//!
//! A host effect is never attempted without a capability: the request that
//! a plugin is invoked with can only be made from a capability token that
//! the receiver of the verb holds or inherits.

use crate::assoc::with_entry;
use crate::entity::{Capability, CapabilityView, EntityId};
use crate::error::ExecutionError;
use crate::number::Number;
use crate::prototype::{grown, inherited_capability, lemma_grown_capability, resolve_capability};
use crate::registry::{params_view, slot_of, PluginRegistry};
use crate::storage::{WorldStorage, WorldView};
use crate::text::{decimal, push_signed};
use crate::value::{
    all_data, all_data_in, items_view, lemma_items_view, lemma_pairs_view, pairs_view, set_entry, SValue,
    SValueView,
};
use vstd::prelude::*;

verus! {

/// What a plugin function is invoked with: the slot of the function, the
/// entity on whose behalf it is called, the function's name, and the
/// request.
#[derive(Debug)]
pub struct PluginRequest {
    pub slot: usize,
    pub entity_id: EntityId,
    pub name: String,
    pub input: SValue,
}

/// One invocation of a plugin: the entity on whose behalf it was made,
/// the slot of the function, and the request.
pub ghost struct Invocation {
    pub entity: int,
    pub slot: int,
    pub input: SValueView,
}

impl PluginRequest {
    /// The invocation that a call with this request is.
    pub open spec fn invocation(&self) -> Invocation {
        Invocation { entity: self.entity_id as int, slot: self.slot as int, input: self.input@ }
    }
}

/// What came back from a plugin function: its status, and the output that
/// it left. `output` is `None` where the plugin left none or where what it
/// left is not JSON.
#[derive(Debug)]
pub struct PluginReply {
    pub status: i32,
    pub output: Option<SValue>,
}

/// A capability token as a plugin is shown it.
pub open spec fn capability_value(c: CapabilityView) -> SValueView {
    SValueView::Object(
        seq![
            ("id"@, SValueView::Number(Number::Int(c.id as i64))),
            ("owner_id"@, SValueView::Number(Number::Int(c.owner_id as i64))),
            ("kind"@, SValueView::String(c.kind)),
            ("params"@, c.params),
        ],
    )
}

/// `base` with each argument that has a name bound under that name.
pub open spec fn with_named_args(
    base: Seq<(Seq<char>, SValueView)>,
    params: Seq<Seq<char>>,
    args: Seq<SValueView>,
    n: int,
) -> Seq<(Seq<char>, SValueView)>
    decreases n,
{
    if n <= 0 || n > params.len() || n > args.len() {
        base
    } else {
        with_entry(with_named_args(base, params, args, n - 1), params[n - 1], args[n - 1])
    }
}

/// The smaller of two lengths.
pub open spec fn shorter(a: int, b: int) -> int {
    if a <= b {
        a
    } else {
        b
    }
}

/// The request of a host effect: the capability, the id of the receiver,
/// the arguments in order under `args`, and each argument that has a name
/// under that name.
pub open spec fn request_value(
    c: CapabilityView,
    entity_id: int,
    params: Seq<Seq<char>>,
    args: Seq<SValueView>,
) -> SValueView {
    SValueView::Object(
        with_named_args(
            seq![
                ("capability"@, capability_value(c)),
                ("entity_id"@, SValueView::Number(Number::Int(entity_id as i64))),
                ("args"@, SValueView::Array(args)),
            ],
            params,
            args,
            shorter(params.len() as int, args.len() as int),
        ),
    )
}

/// Whether `input` is the request that a verb running on `entity` makes
/// of the function in `slot` with the arguments `args`, from the
/// capability `c` that the entity holds or inherits in `world`.
pub open spec fn authorizes(
    world: WorldView,
    kinds: Seq<Seq<char>>,
    params: Seq<Seq<Seq<char>>>,
    input: SValueView,
    entity: int,
    slot: int,
    c: CapabilityView,
    args: Seq<SValueView>,
) -> bool {
    &&& 0 <= slot < kinds.len()
    &&& 0 <= slot < params.len()
    &&& inherited_capability(world, entity, kinds[slot]) == Some(c)
    &&& input == request_value(c, entity, params[slot], args)
}

/// Whether an invocation rests on a capability: the entity on whose
/// behalf it was made holds or inherits in `world` a capability of the
/// kind that the function in its slot takes, and the request is the one
/// that is built from that capability.
pub open spec fn licensed(
    world: WorldView,
    kinds: Seq<Seq<char>>,
    params: Seq<Seq<Seq<char>>>,
    call: Invocation,
) -> bool {
    exists|c: CapabilityView, args: Seq<SValueView>| #[trigger]
        authorizes(world, kinds, params, call.input, call.entity, call.slot, c, args)
}

/// An invocation that rests on a capability still does after the world
/// has grown.
pub proof fn lemma_licensed_grown(
    before: WorldView,
    after: WorldView,
    kinds: Seq<Seq<char>>,
    params: Seq<Seq<Seq<char>>>,
    call: Invocation,
)
    requires
        before.wf(),
        after.wf(),
        grown(before, after),
        licensed(before, kinds, params, call),
    ensures
        licensed(after, kinds, params, call),
{
    let (c, args) = choose|c: CapabilityView, args: Seq<SValueView>|
        authorizes(before, kinds, params, call.input, call.entity, call.slot, c, args);
    lemma_grown_capability(before, after, call.entity, kinds[call.slot]);
    assert(authorizes(after, kinds, params, call.input, call.entity, call.slot, c, args));
}

/// A capability token as a plugin is shown it.
pub fn capability_to_value(c: &Capability) -> (r: SValue)
    ensures
        r@ == capability_value(c@),
{
    let mut pairs: Vec<(String, SValue)> = Vec::new();
    pairs.push(("id".to_owned(), SValue::Number(Number::Int(c.id))));
    pairs.push(("owner_id".to_owned(), SValue::Number(Number::Int(c.owner_id))));
    pairs.push(("kind".to_owned(), SValue::String(c.kind.clone())));
    pairs.push(("params".to_owned(), c.params.clone()));
    proof {
        lemma_pairs_view(pairs@);
        assert(pairs_view(pairs@) =~= capability_value(c@)->Object_0);
    }
    SValue::Object(pairs)
}

/// The text of the error for a host-effect opcode that no plugin has
/// registered.
pub open spec fn not_registered_text(name: Seq<char>) -> Seq<char> {
    "Plugin function '"@ + name + "' not registered"@
}

/// Prepares the call of the host-effect opcode `opcode` by a verb that
/// runs on entity `this_id`: finds the function, selects the capability of
/// the kind that it takes along the prototype chain of the receiver, and
/// builds the request. Without such a capability there is no request.
pub fn prepare_host_call(
    world: &WorldStorage,
    registry: &PluginRegistry,
    this_id: EntityId,
    opcode: &str,
    args: &Vec<SValue>,
) -> (r: Result<PluginRequest, ExecutionError>)
    requires
        world.wf(),
    ensures
        match slot_of(registry.names(), opcode@) {
            None => {
                &&& r is Err
                &&& r->Err_0 is PluginError
                &&& r->Err_0->PluginError_0@ == not_registered_text(opcode@)
            },
            Some(slot) => match inherited_capability(
                world@,
                this_id as int,
                registry.kinds()[slot],
            ) {
                None => {
                    &&& r is Err
                    &&& r->Err_0 is MissingCapability
                    &&& r->Err_0->MissingCapability_0@ == registry.kinds()[slot]
                },
                Some(c) => if all_data(items_view(args@)) {
                    &&& r is Ok
                    &&& r->Ok_0.slot == slot
                    &&& r->Ok_0.entity_id == this_id
                    &&& r->Ok_0.name@ == opcode@
                    &&& r->Ok_0.input@ == request_value(
                        c,
                        this_id as int,
                        registry.params()[slot],
                        items_view(args@),
                    )
                } else {
                    r is Err && r->Err_0 is TypeError
                },
            },
        },
{
    let slot = match registry.lookup(opcode) {
        Some(slot) => slot,
        None => {
            let mut text = "Plugin function '".to_owned();
            text.append(opcode);
            text.append("' not registered");
            return Err(ExecutionError::PluginError(text));
        },
    };
    let function = registry.function(slot);
    let capability = match resolve_capability(world, this_id, function.kind.as_str()) {
        Some(c) => c,
        None => {
            return Err(ExecutionError::MissingCapability(function.kind.clone()));
        },
    };
    if !all_data_in(args) {
        return Err(ExecutionError::TypeError("a function cannot be sent to a plugin".to_owned()));
    }
    let mut pairs: Vec<(String, SValue)> = Vec::new();
    pairs.push(("capability".to_owned(), capability_to_value(capability)));
    pairs.push(("entity_id".to_owned(), SValue::Number(Number::Int(this_id))));
    let mut copies: Vec<SValue> = Vec::new();
    let mut i: usize = 0;
    while i < args.len()
        invariant
            i <= args.len(),
            copies@.len() == i,
            forall|j: int| 0 <= j < i ==> copies@[j]@ == args@[j]@,
        decreases args.len() - i,
    {
        copies.push(args[i].clone());
        i += 1;
    }
    proof {
        lemma_items_view(copies@);
        lemma_items_view(args@);
        assert(items_view(copies@) =~= items_view(args@));
    }
    pairs.push(("args".to_owned(), SValue::Array(copies)));
    let ghost base = seq![
        ("capability"@, capability_value(capability@)),
        ("entity_id"@, SValueView::Number(Number::Int(this_id as int as i64))),
        ("args"@, SValueView::Array(items_view(args@))),
    ];
    let ghost names = params_view(function.params@);
    let ghost values = items_view(args@);
    proof {
        lemma_pairs_view(pairs@);
        assert(pairs_view(pairs@) =~= base);
    }
    let mut k: usize = 0;
    while k < function.params.len() && k < args.len()
        invariant
            k <= function.params.len(),
            k <= args.len(),
            names == params_view(function.params@),
            values == items_view(args@),
            values.len() == args.len(),
            forall|j: int| 0 <= j < args.len() ==> (#[trigger] values[j]) == args@[j]@,
            pairs_view(pairs@) == with_named_args(base, names, values, k as int),
        decreases args.len() - k,
    {
        set_entry(&mut pairs, function.params[k].as_str(), args[k].clone());
        k += 1;
    }
    Ok(
        PluginRequest {
            slot,
            entity_id: this_id,
            name: opcode.to_owned(),
            input: SValue::Object(pairs),
        },
    )
}

/// The text of the error that a failed plugin call is reported with: the
/// plugin's own error text where its output is an object with a string
/// under `error`, else a sentence that names the function and the status.
pub open spec fn failure_text(name: Seq<char>, status: int, output: Option<SValueView>) -> Seq<char> {
    match output {
        Some(v) => match v.field("error"@) {
            Some(SValueView::String(text)) => text,
            _ => "Plugin function '"@ + name + "' failed with code "@ + decimal(status),
        },
        None => "Plugin function '"@ + name + "' failed with code "@ + decimal(status),
    }
}

/// Whether `r` is what the reply of the function `name` is read as: the
/// output where the status is 0 and there is one; else a plugin error,
/// with the text of the failure where the status is not 0, and with a
/// sentence that says that there was no output where it is.
pub open spec fn reads_as(name: Seq<char>, reply: PluginReply, r: Result<SValue, ExecutionError>) -> bool {
    match r {
        Ok(v) => reply.status == 0 && reply.output is Some && v@ == reply.output->0@,
        Err(e) => {
            &&& e is PluginError
            &&& if reply.status != 0 {
                e->PluginError_0@ == failure_text(
                    name,
                    reply.status as int,
                    match reply.output {
                        Some(out) => Some(out@),
                        None => None,
                    },
                )
            } else {
                reply.output is None && e->PluginError_0@ == "Plugin function '"@ + name
                    + "' returned no JSON output"@
            }
        },
    }
}

/// What a host-effect opcode evaluates to, given the plugin's reply: the
/// output where the status is 0 and there is one, else a plugin error.
pub fn interpret_reply(name: &str, reply: PluginReply) -> (r: Result<SValue, ExecutionError>)
    ensures
        reads_as(name@, reply, r),
{
    if reply.status != 0 {
        if let Some(out) = &reply.output {
            if let Some(SValue::String(text)) = out.get("error") {
                return Err(ExecutionError::PluginError(text.clone()));
            }
        }
        let mut s = "Plugin function '".to_owned();
        s.append(name);
        s.append("' failed with code ");
        push_signed(&mut s, reply.status as i64);
        return Err(ExecutionError::PluginError(s));
    }
    match reply.output {
        Some(out) => Ok(out),
        None => {
            let mut s = "Plugin function '".to_owned();
            s.append(name);
            s.append("' returned no JSON output");
            Err(ExecutionError::PluginError(s))
        },
    }
}

} // verus!
