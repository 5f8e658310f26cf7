//! The evaluator: how an expression runs against a receiver, a world and
//! a host.
//!
//! Evaluation is exact wherever values alone decide. Arithmetic on doubles
//! that are not safe integers, and the effects of plugins, are the host's:
//! the evaluator says what it hands to the host and takes what comes back.
//!
//! Three things hold of every run, whatever the host answers. The world
//! changes only by entities created, properties updated and tasks
//! scheduled (`kept`, `reached`). A plugin is invoked only with a request
//! that rests on a capability which an entity holds or inherits (`kept`,
//! `licensed`). And a program that holds no `create`, `update`,
//! `schedule` or `call` leaves the world as it was, and invokes no plugin
//! where the receiver has no capability (`untouched`).

use crate::builtins::{
    as_number, holds, list_get, list_len, negate_exact, number_literal, obj_get, obj_keys, obj_set,
    str_concat, str_len, str_slice, truthy, CompareOp,
};
use crate::entity::EntityId;
use crate::error::ExecutionError;
use crate::hostcall::{
    authorizes, interpret_reply, lemma_licensed_grown, licensed, prepare_host_call, reads_as,
    Invocation, PluginReply, PluginRequest,
};
use crate::ir::{fields_view, lemma_fields_view, lemma_list_view, list_view, SExpr};
use crate::machine::Machine;
use crate::number::{Comparison, MathOp, Number};
use crate::opcode::{parse_opcode, Opcode};
use crate::opcodes::{
    lemma_reached_on, lemma_reached_same, opcode_create, opcode_entity, opcode_update, reached,
    resolve_entity, to_entity_id,
};
use crate::prototype::{grown, inherited_capability, lemma_grown_twice, resolve_verb};
use crate::registry::PluginRegistry;
use crate::scheduler::Scheduler;
use crate::semantics::{
    all_harmless, harmless, harmless_fields, harmless_items, lemma_harmless_fields,
    lemma_harmless_items, writes, apply_spec, arg, call_spec, call_verb_spec, closure_spec, eval_spec, for_loop_spec, for_spec,
    items_spec, map_loop_spec, map_spec, obj_new_spec, object_spec, passed_args, place_spec,
    seq_spec, target_of, try_spec, verb_spec, while_spec, Failure, Outcome, Outcomes, Setting,
    State,
};
use crate::storage::{StorageError, WorldStorage, WorldView};
use crate::validation::ValidationError;
use crate::value::{
    all_data_in, copy_items, items_view, lemma_items_view, lemma_pairs_view, pairs_view, set_entry, SValue,
    SValueView,
};
use vstd::prelude::*;

verus! {

/// What the evaluator cannot do itself.
pub trait Host {
    /// `a op b` in double arithmetic.
    fn arithmetic(&mut self, op: MathOp, a: Number, b: Number) -> Number;

    /// `-a` in double arithmetic.
    fn negate(&mut self, a: Number) -> Number;

    /// How `a` and `b` compare as doubles.
    fn compare(&mut self, a: Number, b: Number) -> Comparison;

    /// Calls the plugin function that the request names.
    fn invoke(&mut self, request: &PluginRequest) -> PluginReply;
}

/// The one door to a host. Whatever reaches the host passes here; the
/// door remembers whether anything did, and keeps count of the requests
/// that plugins were invoked with.
pub struct Door<H: Host> {
    host: H,
    asked: bool,
    requests: Ghost<Seq<Invocation>>,
}

impl<H: Host> Door<H> {
    /// The invocations of plugins that were made through this door,
    /// oldest first.
    pub closed spec fn invoked(&self) -> Seq<Invocation> {
        self.requests@
    }

    /// The host behind the door.
    pub closed spec fn inner(&self) -> H {
        self.host
    }

    /// Whether the host has been turned to through this door, for
    /// arithmetic or for a plugin.
    pub closed spec fn asked(&self) -> bool {
        self.asked
    }

    /// A door to `host` through which nothing has passed.
    pub fn new(host: H) -> (r: Door<H>)
        ensures
            r.inner() == host,
            r.invoked() == Seq::<Invocation>::empty(),
            !r.asked(),
    {
        Door { host, asked: false, requests: Ghost(Seq::empty()) }
    }

    /// Whether the host has been turned to through this door.
    pub fn was_asked(&self) -> (r: bool)
        ensures
            r == self.asked(),
    {
        self.asked
    }

    /// The host behind the door.
    pub fn host(&self) -> (r: &H)
        ensures
            *r == self.inner(),
    {
        &self.host
    }

    /// The host itself, the door left behind.
    pub fn into_host(self) -> (r: H)
        ensures
            r == self.inner(),
    {
        self.host
    }

    /// `a op b` in double arithmetic: what the host behind the door
    /// answers when it is asked for `a op b`. The host is afterwards as
    /// that question left it. No plugin is invoked.
    pub fn arithmetic(&mut self, op: MathOp, a: Number, b: Number) -> (r: Number)
        ensures
            exists|lent: &mut H|
                mut_ref_current(lent) == old(self).inner()
                    && mut_ref_future(lent) == final(self).inner()
                    && #[trigger] call_ensures(H::arithmetic, (lent, op, a, b), r),
            final(self).invoked() == old(self).invoked(),
            final(self).asked(),
    {
        self.asked = true;
        self.host.arithmetic(op, a, b)
    }

    /// `-a` in double arithmetic: what the host behind the door answers
    /// when it is asked for `-a`. The host is afterwards as that question
    /// left it. No plugin is invoked.
    pub fn negate(&mut self, a: Number) -> (r: Number)
        ensures
            exists|lent: &mut H|
                mut_ref_current(lent) == old(self).inner()
                    && mut_ref_future(lent) == final(self).inner()
                    && #[trigger] call_ensures(H::negate, (lent, a), r),
            final(self).invoked() == old(self).invoked(),
            final(self).asked(),
    {
        self.asked = true;
        self.host.negate(a)
    }

    /// How `a` and `b` compare as doubles: what the host behind the door
    /// answers when it is asked to compare them. The host is afterwards as
    /// that question left it. No plugin is invoked.
    pub fn compare(&mut self, a: Number, b: Number) -> (r: Comparison)
        ensures
            exists|lent: &mut H|
                mut_ref_current(lent) == old(self).inner()
                    && mut_ref_future(lent) == final(self).inner()
                    && #[trigger] call_ensures(H::compare, (lent, a, b), r),
            final(self).invoked() == old(self).invoked(),
            final(self).asked(),
    {
        self.asked = true;
        self.host.compare(a, b)
    }

    /// Invokes the plugin function that the request names, and counts the
    /// request: the reply is what the host behind the door answers to the
    /// request, and the host is afterwards as that call left it.
    pub fn invoke(&mut self, request: &PluginRequest) -> (r: PluginReply)
        ensures
            exists|lent: &mut H|
                mut_ref_current(lent) == old(self).inner()
                    && mut_ref_future(lent) == final(self).inner()
                    && #[trigger] call_ensures(H::invoke, (lent, request), r),
            final(self).invoked() == old(self).invoked().push(request.invocation()),
            final(self).asked(),
    {
        self.asked = true;
        proof {
            self.requests@ = self.requests@.push(request.invocation());
        }
        self.host.invoke(request)
    }
}

/// A host that knows no doubles and no plugins: an operation that is left
/// to it yields NaN, a comparison is unordered, and a plugin call fails.
pub struct ExactHost {}

/// The bit pattern of the quiet NaN that `ExactHost` answers with.
pub const NAN_BITS: u64 = 0x7ff8_0000_0000_0000;

impl Host for ExactHost {
    fn arithmetic(&mut self, op: MathOp, a: Number, b: Number) -> (r: Number)
        ensures
            r == Number::Float(NAN_BITS),
    {
        Number::Float(NAN_BITS)
    }

    fn negate(&mut self, a: Number) -> (r: Number)
        ensures
            r == Number::Float(NAN_BITS),
    {
        Number::Float(NAN_BITS)
    }

    fn compare(&mut self, a: Number, b: Number) -> (r: Comparison)
        ensures
            r == Comparison::Unordered,
    {
        Comparison::Unordered
    }

    fn invoke(&mut self, request: &PluginRequest) -> (r: PluginReply)
        ensures
            r.status == -1,
            r.output is None,
    {
        PluginReply { status: -1, output: None }
    }
}

/// Who a verb runs for, and when: the receiver as scripts see it, its id,
/// the id of the caller, the arguments of the call, and the time of the
/// call in milliseconds.
pub struct ExecutionContext {
    pub this: SValue,
    pub this_id: EntityId,
    pub caller_id: Option<EntityId>,
    pub args: Vec<SValue>,
    pub now_ms: i64,
}

/// Why an evaluation ended without a value.
pub enum Signal {
    /// `std.break` is looking for its loop.
    Break,
    /// `std.continue` is looking for its loop.
    Continue,
    /// A value was thrown and is looking for its `std.try`.
    Throw(SValue),
    /// The call failed.
    Fail(ExecutionError),
}

/// The deepest nesting of expressions, function calls and verb calls that
/// the evaluator follows.
pub const MAX_DEPTH: u32 = 200;

/// What every step of an evaluation keeps: the machine's invariant, the
/// scopes that exist, and the steps that are gone.
pub open spec fn advanced(before: &Machine, after: &Machine) -> bool {
    &&& after.wf()
    &&& before.frames@.len() <= after.frames@.len()
    &&& after.steps <= before.steps
}

/// A point in a run: the world as it is, and the requests that plugins
/// have been invoked with so far.
pub ghost struct Mark {
    pub world: WorldView,
    pub invoked: Seq<Invocation>,
}

/// The point at which a world and a door to the host are.
pub open spec fn mark<H: Host>(world: &WorldStorage, host: &Door<H>) -> Mark {
    Mark { world: world@, invoked: host.invoked() }
}

/// What holds between an earlier and a later point of every run, however
/// the run goes and whatever the host answers: the world differs only by
/// entities created, properties updated and tasks scheduled, so it has
/// only grown; the invocations of before are still the first; and every
/// invocation since rests on a capability that the entity on whose
/// behalf it was made holds or inherits.
#[verifier::opaque]
pub open spec fn kept(
    before: Mark,
    after: Mark,
    kinds: Seq<Seq<char>>,
    params: Seq<Seq<Seq<char>>>,
) -> bool {
    &&& reached(before.world, after.world)
    &&& grown(before.world, after.world)
    &&& before.invoked.len() <= after.invoked.len()
    &&& forall|k: int| 0 <= k < before.invoked.len() ==> after.invoked[k] == before.invoked[k]
    &&& forall|k: int|
        before.invoked.len() <= k < after.invoked.len() ==> licensed(
            after.world,
            kinds,
            params,
            #[trigger] after.invoked[k],
        )
}

/// What a step of a run carries on: a host that was turned to stays so;
/// `kept` holds from its start to its end, and from any earlier point to
/// its end where it held from that point to its start.
pub open spec fn carried<H: Host>(
    w0: &WorldStorage,
    h0: &Door<H>,
    w1: &WorldStorage,
    h1: &Door<H>,
    registry: &PluginRegistry,
) -> bool {
    &&& h0.asked() ==> h1.asked()
    &&& kept(mark(w0, h0), mark(w1, h1), registry.kinds(), registry.params())
    &&& forall|a: Mark| #[trigger]
        kept(a, mark(w0, h0), registry.kinds(), registry.params()) ==> kept(
            a,
            mark(w1, h1),
            registry.kinds(),
            registry.params(),
        )
}

/// Between a point and itself, everything is kept.
pub proof fn lemma_kept_same(s: Mark, kinds: Seq<Seq<char>>, params: Seq<Seq<Seq<char>>>)
    ensures
        kept(s, s, kinds, params),
{
    reveal(kept);
    lemma_reached_same(s.world);
}

/// What is kept up to one point is kept up to a later one.
pub proof fn lemma_kept_on(
    a: Mark,
    b: Mark,
    c: Mark,
    kinds: Seq<Seq<char>>,
    params: Seq<Seq<Seq<char>>>,
)
    requires
        b.world.wf(),
        c.world.wf(),
        kept(a, b, kinds, params),
        kept(b, c, kinds, params),
    ensures
        kept(a, c, kinds, params),
{
    reveal(kept);
    lemma_grown_twice(a.world, b.world, c.world);
    lemma_reached_on(a.world, b.world, c.world);
    assert forall|k: int| a.invoked.len() <= k < c.invoked.len() implies licensed(
        c.world,
        kinds,
        params,
        #[trigger] c.invoked[k],
    ) by {
        if k < b.invoked.len() {
            assert(c.invoked[k] == b.invoked[k]);
            lemma_licensed_grown(b.world, c.world, kinds, params, b.invoked[k]);
        }
    }
}

/// A step that only lets the world grow carries everything on.
pub proof fn lemma_kept_world(
    s: Mark,
    world: WorldView,
    kinds: Seq<Seq<char>>,
    params: Seq<Seq<Seq<char>>>,
)
    requires
        s.world.wf(),
        world.wf(),
        grown(s.world, world),
        reached(s.world, world),
    ensures
        kept(s, Mark { world, invoked: s.invoked }, kinds, params),
        forall|a: Mark| #[trigger]
            kept(a, s, kinds, params) ==> kept(a, Mark { world, invoked: s.invoked }, kinds, params),
{
    let t = Mark { world, invoked: s.invoked };
    assert(kept(s, t, kinds, params)) by {
        reveal(kept);
    }
    assert forall|a: Mark| #[trigger] kept(a, s, kinds, params) implies kept(
        a,
        t,
        kinds,
        params,
    ) by {
        lemma_kept_on(a, s, t, kinds, params);
    }
}

/// A step that invokes a plugin with a request that rests on a
/// capability carries everything on.
pub proof fn lemma_kept_invoke(
    s: Mark,
    input: Invocation,
    kinds: Seq<Seq<char>>,
    params: Seq<Seq<Seq<char>>>,
)
    requires
        s.world.wf(),
        licensed(s.world, kinds, params, input),
    ensures
        kept(s, Mark { world: s.world, invoked: s.invoked.push(input) }, kinds, params),
        forall|a: Mark| #[trigger]
            kept(a, s, kinds, params) ==> kept(
                a,
                Mark { world: s.world, invoked: s.invoked.push(input) },
                kinds,
                params,
            ),
{
    let t = Mark { world: s.world, invoked: s.invoked.push(input) };
    assert(kept(s, t, kinds, params)) by {
        reveal(kept);
        lemma_reached_same(s.world);
    }
    assert forall|a: Mark| #[trigger] kept(a, s, kinds, params) implies kept(
        a,
        t,
        kinds,
        params,
    ) by {
        lemma_kept_on(a, s, t, kinds, params);
    }
}

/// In every run the world changes only as scripts can change it: what is
/// kept from one point to a later one leaves the verbs and the capability
/// tokens as they were, every entity with its id and its prototype, and
/// the tasks that were scheduled in their places; and the later world is
/// the earlier one but for entities created, properties updated and tasks
/// scheduled.
pub proof fn lemma_world_only_changes_by_scripts(
    before: Mark,
    after: Mark,
    kinds: Seq<Seq<char>>,
    params: Seq<Seq<Seq<char>>>,
)
    requires
        kept(before, after, kinds, params),
    ensures
        reached(before.world, after.world),
        grown(before.world, after.world),
        after.world.verbs == before.world.verbs,
        after.world.capabilities == before.world.capabilities,
{
    reveal(kept);
}

/// In every run a plugin is invoked only with a request that rests on a
/// capability: for each invocation made between two points of a run,
/// the entity on whose behalf it was made holds or inherits a capability
/// of the kind that the function takes, and the request was built from
/// that capability.
pub proof fn lemma_requests_rest_on_capabilities(
    before: Mark,
    after: Mark,
    kinds: Seq<Seq<char>>,
    params: Seq<Seq<Seq<char>>>,
    k: int,
)
    requires
        kept(before, after, kinds, params),
        before.invoked.len() <= k < after.invoked.len(),
    ensures
        licensed(after.world, kinds, params, after.invoked[k]),
        0 <= after.invoked[k].slot < kinds.len(),
        inherited_capability(
            after.world,
            after.invoked[k].entity,
            kinds[after.invoked[k].slot],
        ) is Some,
        before.invoked == after.invoked.take(before.invoked.len() as int),
{
    reveal(kept);
    assert(before.invoked =~= after.invoked.take(before.invoked.len() as int));
    let call = after.invoked[k];
    let (c, args) = choose|c: crate::entity::CapabilityView, args: Seq<SValueView>|
        authorizes(after.world, kinds, params, call.input, call.entity, call.slot, c, args);
}

/// An entity that holds and inherits no capability of a kind is the
/// entity of no invocation of a function that takes that kind, in any
/// run.
pub proof fn lemma_no_capability_no_invocation(
    before: Mark,
    after: Mark,
    kinds: Seq<Seq<char>>,
    params: Seq<Seq<Seq<char>>>,
    entity: int,
    kind: Seq<char>,
    k: int,
)
    requires
        kept(before, after, kinds, params),
        inherited_capability(after.world, entity, kind) is None,
        before.invoked.len() <= k < after.invoked.len(),
        after.invoked[k].entity == entity,
    ensures
        kinds[after.invoked[k].slot] != kind,
{
    lemma_requests_rest_on_capabilities(before, after, kinds, params, k);
}

/// Where no entity of the world holds or inherits a capability of a kind
/// that a registered function takes, no run invokes a plugin.
pub proof fn lemma_no_capability_no_request(
    before: Mark,
    after: Mark,
    kinds: Seq<Seq<char>>,
    params: Seq<Seq<Seq<char>>>,
)
    requires
        kept(before, after, kinds, params),
        forall|entity: int, slot: int|
            0 <= slot < kinds.len() ==> inherited_capability(after.world, entity, kinds[slot]) is None,
    ensures
        after.invoked == before.invoked,
{
    if before.invoked.len() < after.invoked.len() {
        let k = before.invoked.len() as int;
        lemma_requests_rest_on_capabilities(before, after, kinds, params, k);
    }
    reveal(kept);
    assert(after.invoked =~= before.invoked);
}

/// Whether the entity `this_id` holds and inherits no capability of any
/// kind that a registered function takes.
pub open spec fn powerless(world: WorldView, this_id: int, kinds: Seq<Seq<char>>) -> bool {
    forall|slot: int|
        0 <= slot < kinds.len() ==> inherited_capability(world, this_id, #[trigger] kinds[slot]) is None
}

/// What a step on behalf of the entity `this_id` keeps where the
/// machine's functions are harmless: the world is as it was, the
/// functions are harmless still, and where the entity is powerless no
/// plugin was invoked.
pub open spec fn untouched<H: Host>(
    m0: &Machine,
    w0: &WorldStorage,
    h0: &Door<H>,
    m1: &Machine,
    w1: &WorldStorage,
    h1: &Door<H>,
    this_id: int,
    kinds: Seq<Seq<char>>,
) -> bool {
    all_harmless(m0.functions()) ==> {
        &&& w1@ == w0@
        &&& all_harmless(m1.functions())
        &&& powerless(w0@, this_id, kinds) ==> h1.invoked() == h0.invoked()
    }
}

/// The state of a run.
pub open spec fn state_of(m: &Machine, world: &WorldStorage) -> State {
    State { scopes: m.scopes(), closures: m.functions(), steps: m.steps as nat, world: world@ }
}

/// The setting of a run.
pub open spec fn setting_of(ctx: &ExecutionContext, registry: &PluginRegistry) -> Setting {
    Setting {
        this: ctx.this@,
        this_id: ctx.this_id as int,
        caller_id: match ctx.caller_id {
            Some(id) => Some(id as int),
            None => None,
        },
        args: items_view(ctx.args@),
        now_ms: ctx.now_ms as int,
        names: registry.names(),
        kinds: registry.kinds(),
    }
}

/// Why a call failed, as far as the library decides it.
pub open spec fn failure_of(e: ExecutionError) -> Failure {
    match e {
        ExecutionError::VerbNotFound { entity, verb } => Failure::VerbNotFound {
            entity: entity as int,
            verb: verb@,
        },
        ExecutionError::EntityNotFound(id) => Failure::EntityNotFound(id as int),
        ExecutionError::MissingCapability(kind) => Failure::MissingCapability(kind@),
        ExecutionError::ScriptThrow(v) => Failure::ScriptThrow(v@),
        ExecutionError::Validation(ValidationError::UnknownOpcode(name)) => Failure::UnknownOpcode(
            name@,
        ),
        ExecutionError::TypeError(_) => Failure::TypeError,
        ExecutionError::BudgetExceeded => Failure::BudgetExceeded,
        ExecutionError::Storage(StorageError::IdsExhausted) => Failure::IdsExhausted,
        _ => Failure::Other,
    }
}

/// How an evaluation ended.
pub open spec fn outcome_of(r: Result<SValue, Signal>) -> Outcome {
    match r {
        Ok(v) => Outcome::Done(v@),
        Err(Signal::Break) => Outcome::Break,
        Err(Signal::Continue) => Outcome::Continue,
        Err(Signal::Throw(v)) => Outcome::Throw(v@),
        Err(Signal::Fail(e)) => Outcome::Fail(failure_of(e)),
    }
}

/// Whether a run ended as `expected` says. Either the run was to turn to
/// the host, and did (`asked`); or it ended in the state and with the
/// outcome that were expected, and left the host alone (`quiet`).
pub open spec fn agrees(
    m: &Machine,
    world: &WorldStorage,
    quiet: bool,
    asked: bool,
    r: Result<SValue, Signal>,
    expected: (State, Outcome),
) -> bool {
    (expected.1 is Host && asked) || (state_of(m, world) == expected.0 && outcome_of(r)
        == expected.1 && quiet)
}

/// Whether the evaluation of a list ended as `expected` says.
pub open spec fn agrees_all(
    m: &Machine,
    world: &WorldStorage,
    quiet: bool,
    asked: bool,
    r: Result<Vec<SValue>, Signal>,
    expected: (State, Outcomes),
) -> bool {
    (expected.1 == Outcomes::Stop(Outcome::Host) && asked) || (state_of(m, world) == expected.0 && quiet
        && (match r {
        Ok(vals) => expected.1 == Outcomes::Values(items_view(vals@)),
        Err(sig) => expected.1 == Outcomes::Stop(outcome_of(Err(sig))),
    }))
}

/// Appending a value to a list appends its view to the list's view.
proof fn lemma_value_pushed(before: Seq<SValue>, after: Seq<SValue>, v: SValue)
    requires
        after == before.push(v),
    ensures
        items_view(after) == items_view(before).push(v@),
{
    assert(after.drop_last() =~= before);
}

fn type_error(text: &str) -> (r: Signal)
    ensures
        r is Fail,
        r->Fail_0 is TypeError,
{
    Signal::Fail(ExecutionError::TypeError(text.to_owned()))
}

fn arg_at(vals: &Vec<SValue>, i: usize) -> (r: SValue)
    ensures
        r@ == (if i < vals@.len() {
            vals@[i as int]@
        } else {
            SValueView::Null
        }),
{
    if i < vals.len() {
        vals[i].clone()
    } else {
        SValue::Null
    }
}

/// The name that a special form is given in place `i`: a string literal.
fn name_at(items: &Vec<SExpr>, i: usize) -> (r: Option<&str>)
    ensures
        r is Some ==> i < items@.len() && items@[i as int] is String && r->0@
            == items@[i as int]->String_0@,
        r is None ==> !(i < items@.len() && items@[i as int] is String),
{
    if i < items.len() {
        match &items[i] {
            SExpr::String(s) => Some(s.as_str()),
            _ => None,
        }
    } else {
        None
    }
}

/// The names of a function's parameters: string literals.
fn parameter_names(names: &Vec<SExpr>) -> (r: Option<Vec<String>>)
    ensures
        r is Some <==> forall|i: int| 0 <= i < names@.len() ==> names@[i] is String,
        r matches Some(params) ==> params@.len() == names@.len() && forall|i: int|
            0 <= i < names@.len() ==> (#[trigger] params@[i])@ == names@[i]->String_0@,
{
    let mut params: Vec<String> = Vec::new();
    let mut i: usize = 0;
    while i < names.len()
        invariant
            i <= names.len(),
            params@.len() == i,
            forall|j: int| 0 <= j < i ==> names@[j] is String,
            forall|j: int| 0 <= j < i ==> (#[trigger] params@[j])@ == names@[j]->String_0@,
        decreases names.len() - i,
    {
        match &names[i] {
            SExpr::String(p) => {
                params.push(p.clone());
            },
            _ => {
                return None;
            },
        }
        i += 1;
    }
    Some(params)
}

/// `a op b`: exact where both are safe integers and the result is one,
/// else as the host computes it.
pub fn arithmetic<H: Host>(host: &mut Door<H>, op: MathOp, a: &SValue, b: &SValue) -> (r: Result<
    SValue,
    ExecutionError,
>)
    ensures
        final(host).invoked() == old(host).invoked(),
        old(host).asked() ==> final(host).asked(),
        match (a@, b@) {
            (SValueView::Number(x), SValueView::Number(y)) => r is Ok && r->Ok_0@ is Number && (
            match crate::number::exact_number(op, x, y) {
                Some(n) => r->Ok_0@ == SValueView::Number(n) && *final(host) == *old(host),
                None => final(host).asked() && (exists|lent: &mut H, raw: Number|
                    mut_ref_current(lent) == old(host).inner() && mut_ref_future(lent) == final(host).inner() && #[trigger] call_ensures(H::arithmetic, (lent, op, x, y), raw)
                        && r->Ok_0@ == SValueView::Number(raw.preferred())),
            }),
            _ => r is Err && r->Err_0 is TypeError && *final(host) == *old(host),
        },
{
    match (as_number(a), as_number(b)) {
        (Some(x), Some(y)) => match Number::exact(op, x, y) {
            Some(n) => Ok(SValue::Number(n)),
            None => Ok(SValue::Number(host.arithmetic(op, x, y).normalized())),
        },
        _ => Err(ExecutionError::TypeError("arithmetic: expected numbers".to_owned())),
    }
}

/// `-a`: exact for a safe integer other than 0, else as the host computes
/// it.
pub fn negation<H: Host>(host: &mut Door<H>, a: &SValue) -> (r: Result<SValue, ExecutionError>)
    ensures
        final(host).invoked() == old(host).invoked(),
        old(host).asked() ==> final(host).asked(),
        match a@ {
            SValueView::Number(x) => r is Ok && r->Ok_0@ is Number && (
            match crate::builtins::exact_negation(x) {
                Some(n) => r->Ok_0@ == SValueView::Number(n) && *final(host) == *old(host),
                None => final(host).asked() && (exists|lent: &mut H, raw: Number|
                    mut_ref_current(lent) == old(host).inner() && mut_ref_future(lent) == final(host).inner() && #[trigger] call_ensures(H::negate, (lent, x), raw) && r->Ok_0@
                        == SValueView::Number(raw.preferred())),
            }),
            _ => r is Err && r->Err_0 is TypeError && *final(host) == *old(host),
        },
{
    match as_number(a) {
        Some(x) => match negate_exact(x) {
            Some(n) => Ok(SValue::Number(n)),
            None => Ok(SValue::Number(host.negate(x).normalized())),
        },
        None => Err(ExecutionError::TypeError("math.neg: expected a number".to_owned())),
    }
}

/// How two numbers compare: exactly where both are safe integers, else as
/// the host says.
pub fn comparison<H: Host>(host: &mut Door<H>, x: Number, y: Number) -> (r: Comparison)
    ensures
        final(host).invoked() == old(host).invoked(),
        old(host).asked() ==> final(host).asked(),
        match crate::number::exact_comparison(x, y) {
            Some(c) => r == c && *final(host) == *old(host),
            None => final(host).asked() && (exists|lent: &mut H|
                mut_ref_current(lent) == old(host).inner() && mut_ref_future(lent) == final(host).inner() && #[trigger] call_ensures(H::compare, (lent, x, y), r)),
        },
{
    match Number::exact_compare(x, y) {
        Some(c) => c,
        None => host.compare(x, y),
    }
}

/// Whether two values are equal: numbers as numbers, any other values
/// where they are the same value.
pub fn values_equal<H: Host>(host: &mut Door<H>, a: &SValue, b: &SValue) -> (r: bool)
    ensures
        final(host).invoked() == old(host).invoked(),
        old(host).asked() ==> final(host).asked(),
        match (a@, b@) {
            (SValueView::Number(x), SValueView::Number(y)) => match crate::number::exact_comparison(
                x,
                y,
            ) {
                Some(c) => r == (c == Comparison::Equal) && *final(host) == *old(host),
                None => final(host).asked() && (exists|lent: &mut H, c: Comparison|
                    mut_ref_current(lent) == old(host).inner() && mut_ref_future(lent) == final(host).inner() && #[trigger] call_ensures(H::compare, (lent, x, y), c) && r == (c
                        == Comparison::Equal)),
            },
            _ => r == (a@ == b@) && *final(host) == *old(host),
        },
{
    match (as_number(a), as_number(b)) {
        (Some(x), Some(y)) => comparison(host, x, y) == Comparison::Equal,
        _ => a.same(b),
    }
}

/// The truth of an ordering opcode on two values, which must be numbers.
pub fn ordering<H: Host>(host: &mut Door<H>, op: CompareOp, a: &SValue, b: &SValue) -> (r: Result<
    SValue,
    ExecutionError,
>)
    ensures
        final(host).invoked() == old(host).invoked(),
        old(host).asked() ==> final(host).asked(),
        match (a@, b@) {
            (SValueView::Number(x), SValueView::Number(y)) => r is Ok && r->Ok_0@ is Bool && (
            match crate::number::exact_comparison(x, y) {
                Some(c) => r->Ok_0@ == SValueView::Bool(crate::builtins::comparison_holds(op, c))
                    && *final(host) == *old(host),
                None => final(host).asked() && (exists|lent: &mut H, c: Comparison|
                    mut_ref_current(lent) == old(host).inner() && mut_ref_future(lent) == final(host).inner() && #[trigger] call_ensures(H::compare, (lent, x, y), c) && r->Ok_0@
                        == SValueView::Bool(crate::builtins::comparison_holds(op, c))),
            }),
            _ => r is Err && r->Err_0 is TypeError && *final(host) == *old(host),
        },
{
    match (as_number(a), as_number(b)) {
        (Some(x), Some(y)) => {
            let c = comparison(host, x, y);
            Ok(SValue::Bool(holds(op, c)))
        },
        _ => Err(ExecutionError::TypeError("comparison: expected numbers".to_owned())),
    }
}

/// Evaluates `expr` in scope `env`.
pub fn eval<H: Host>(
    m: &mut Machine,
    world: &mut WorldStorage,
    registry: &PluginRegistry,
    host: &mut Door<H>,
    ctx: &ExecutionContext,
    expr: &SExpr,
    env: usize,
    depth: u32,
) -> (r: Result<SValue, Signal>)
    requires
        old(m).wf(),
        old(world).wf(),
        env < old(m).frames@.len(),
    ensures
        advanced(old(m), final(m)),
        final(world).wf(),
        carried(old(world), old(host), final(world), final(host), registry),
        harmless(expr@) ==> untouched(old(m), old(world), old(host), final(m), final(world), final(host), ctx.this_id as int, registry.kinds()),
        agrees(
            final(m),
            final(world),
            *final(host) == *old(host),
            final(host).asked(),
            r,
            eval_spec(
                state_of(old(m), old(world)),
                setting_of(ctx, registry),
                expr@,
                env as int,
                depth as nat,
            ),
        ),
    decreases depth, 5int, 0int,
{
    proof {
        lemma_kept_same(mark(world, host), registry.kinds(), registry.params());
    }
    if depth == 0 || !m.tick() {
        return Err(Signal::Fail(ExecutionError::BudgetExceeded));
    }
    match expr {
        SExpr::Null => Ok(SValue::Null),
        SExpr::Bool(b) => Ok(SValue::Bool(*b)),
        SExpr::Number(bits) => Ok(number_literal(*bits)),
        SExpr::String(s) => Ok(SValue::String(s.clone())),
        SExpr::Object(pairs) => eval_object(m, world, registry, host, ctx, pairs, env, depth),
        SExpr::List(items) => {
            proof {
                lemma_list_view(items@);
            }
            if items.len() == 0 {
                let empty: Vec<SValue> = Vec::new();
                proof {
                    lemma_items_view(empty@);
                    assert(items_view(empty@) =~= Seq::empty());
                }
                return Ok(SValue::Array(empty));
            }
            match &items[0] {
                SExpr::String(name) => eval_call(
                    m,
                    world,
                    registry,
                    host,
                    ctx,
                    name.as_str(),
                    items,
                    env,
                    depth,
                ),
                _ => match eval_items(m, world, registry, host, ctx, items, 0, env, depth) {
                    Ok(vals) => Ok(SValue::Array(vals)),
                    Err(s) => Err(s),
                },
            }
        },
    }
}

/// Evaluates the values of an object literal, in order.
fn eval_object<H: Host>(
    m: &mut Machine,
    world: &mut WorldStorage,
    registry: &PluginRegistry,
    host: &mut Door<H>,
    ctx: &ExecutionContext,
    pairs: &Vec<(String, SExpr)>,
    env: usize,
    depth: u32,
) -> (r: Result<SValue, Signal>)
    requires
        old(m).wf(),
        old(world).wf(),
        env < old(m).frames@.len(),
        depth > 0,
    ensures
        advanced(old(m), final(m)),
        final(world).wf(),
        carried(old(world), old(host), final(world), final(host), registry),
        harmless_fields(fields_view(pairs@)) ==> untouched(old(m), old(world), old(host), final(m), final(world), final(host), ctx.this_id as int, registry.kinds()),
        agrees(
            final(m),
            final(world),
            *final(host) == *old(host),
            final(host).asked(),
            r,
            object_spec(
                state_of(old(m), old(world)),
                setting_of(ctx, registry),
                fields_view(pairs@),
                0,
                Seq::empty(),
                env as int,
                depth as nat,
            ),
        ),
    decreases depth, 2int, 0int,
{
    proof {
        lemma_kept_same(mark(world, host), registry.kinds(), registry.params());
        lemma_harmless_fields(fields_view(pairs@));
        lemma_fields_view(pairs@);
    }
    let ghost cx = setting_of(ctx, registry);
    let ghost all = fields_view(pairs@);
    let ghost total = object_spec(
        state_of(m, world),
        cx,
        all,
        0,
        Seq::empty(),
        env as int,
        depth as nat,
    );
    let mut out: Vec<(String, SValue)> = Vec::new();
    let mut i: usize = 0;
    proof {
        lemma_fields_view(pairs@);
        lemma_pairs_view(out@);
        assert(pairs_view(out@) =~= Seq::empty());
    }
    while i < pairs.len()
        invariant
            advanced(old(m), m),
            world.wf(),
            carried(old(world), old(host), world, host, registry),
            harmless_fields(fields_view(pairs@)) ==> untouched(old(m), old(world), old(host), m, world, host, ctx.this_id as int, registry.kinds()),
            env < old(m).frames@.len(),
            depth > 0,
            i <= pairs.len(),
            cx == setting_of(ctx, registry),
            all == fields_view(pairs@),
            all.len() == pairs.len(),
            forall|j: int| 0 <= j < pairs.len() ==> (#[trigger] all[j]) == (pairs@[j].0@, pairs@[j].1@),
            total == object_spec(
                state_of(old(m), old(world)),
                cx,
                all,
                0,
                Seq::empty(),
                env as int,
                depth as nat,
            ),
            total.1 is Host && host.asked() || *host == *old(host) && total == object_spec(
                state_of(m, world),
                cx,
                all,
                i as int,
                pairs_view(out@),
                env as int,
                depth as nat,
            ),
        decreases pairs.len() - i,
    {
        proof {
            lemma_harmless_fields(fields_view(pairs@));
            lemma_fields_view(pairs@);
        }
        match eval(m, world, registry, host, ctx, &pairs[i].1, env, (depth - 1) as u32) {
            Ok(v) => {
                set_entry(&mut out, pairs[i].0.as_str(), v);
            },
            Err(s) => {
                return Err(s);
            },
        }
        i += 1;
    }
    Ok(SValue::Object(out))
}

/// Evaluates `items[from..]` in order.
fn eval_items<H: Host>(
    m: &mut Machine,
    world: &mut WorldStorage,
    registry: &PluginRegistry,
    host: &mut Door<H>,
    ctx: &ExecutionContext,
    items: &Vec<SExpr>,
    from: usize,
    env: usize,
    depth: u32,
) -> (r: Result<Vec<SValue>, Signal>)
    requires
        old(m).wf(),
        old(world).wf(),
        env < old(m).frames@.len(),
        depth > 0,
    ensures
        advanced(old(m), final(m)),
        final(world).wf(),
        carried(old(world), old(host), final(world), final(host), registry),
        harmless_items(list_view(items@)) ==> untouched(old(m), old(world), old(host), final(m), final(world), final(host), ctx.this_id as int, registry.kinds()),
        agrees_all(
            final(m),
            final(world),
            *final(host) == *old(host),
            final(host).asked(),
            r,
            items_spec(
                state_of(old(m), old(world)),
                setting_of(ctx, registry),
                list_view(items@),
                from as int,
                Seq::empty(),
                env as int,
                depth as nat,
            ),
        ),
    decreases depth, 2int, 0int,
{
    proof {
        lemma_kept_same(mark(world, host), registry.kinds(), registry.params());
        lemma_harmless_items(list_view(items@));
        lemma_list_view(items@);
    }
    let ghost cx = setting_of(ctx, registry);
    let ghost all = list_view(items@);
    let ghost total = items_spec(
        state_of(m, world),
        cx,
        all,
        from as int,
        Seq::empty(),
        env as int,
        depth as nat,
    );
    let mut out: Vec<SValue> = Vec::new();
    proof {
        lemma_list_view(items@);
        lemma_items_view(out@);
        assert(items_view(out@) =~= Seq::empty());
    }
    if from > items.len() {
        return Ok(out);
    }
    let mut i: usize = from;
    while i < items.len()
        invariant
            advanced(old(m), m),
            world.wf(),
            carried(old(world), old(host), world, host, registry),
            harmless_items(list_view(items@)) ==> untouched(old(m), old(world), old(host), m, world, host, ctx.this_id as int, registry.kinds()),
            env < old(m).frames@.len(),
            depth > 0,
            from <= i <= items.len(),
            cx == setting_of(ctx, registry),
            all == list_view(items@),
            all.len() == items.len(),
            forall|j: int| 0 <= j < items.len() ==> (#[trigger] all[j]) == items@[j]@,
            total == items_spec(
                state_of(old(m), old(world)),
                cx,
                all,
                from as int,
                Seq::empty(),
                env as int,
                depth as nat,
            ),
            total.1 == Outcomes::Stop(Outcome::Host) && host.asked() || *host == *old(host) && total == items_spec(
                state_of(m, world),
                cx,
                all,
                i as int,
                items_view(out@),
                env as int,
                depth as nat,
            ),
        decreases items.len() - i,
    {
        proof {
            lemma_harmless_items(list_view(items@));
            lemma_list_view(items@);
        }
        match eval(m, world, registry, host, ctx, &items[i], env, (depth - 1) as u32) {
            Ok(v) => {
                let ghost before = out@;
                out.push(v);
                proof {
                    lemma_value_pushed(before, out@, v);
                }
            },
            Err(s) => {
                return Err(s);
            },
        }
        i += 1;
    }
    Ok(out)
}

/// Evaluates place `i` of a form, or gives null where the form has no
/// such place.
fn eval_place<H: Host>(
    m: &mut Machine,
    world: &mut WorldStorage,
    registry: &PluginRegistry,
    host: &mut Door<H>,
    ctx: &ExecutionContext,
    items: &Vec<SExpr>,
    i: usize,
    env: usize,
    depth: u32,
) -> (r: Result<SValue, Signal>)
    requires
        old(m).wf(),
        old(world).wf(),
        env < old(m).frames@.len(),
        depth > 0,
    ensures
        advanced(old(m), final(m)),
        final(world).wf(),
        carried(old(world), old(host), final(world), final(host), registry),
        harmless_items(list_view(items@)) ==> untouched(old(m), old(world), old(host), final(m), final(world), final(host), ctx.this_id as int, registry.kinds()),
        agrees(
            final(m),
            final(world),
            *final(host) == *old(host),
            final(host).asked(),
            r,
            place_spec(
                state_of(old(m), old(world)),
                setting_of(ctx, registry),
                list_view(items@),
                i as int,
                env as int,
                depth as nat,
            ),
        ),
    decreases depth, 3int, 0int,
{
    proof {
        lemma_kept_same(mark(world, host), registry.kinds(), registry.params());
        lemma_harmless_items(list_view(items@));
        lemma_list_view(items@);
    }
    proof {
        if i < items.len() {
            assert(list_view(items@)[i as int] == items@[i as int]@);
        }
    }
    if i < items.len() {
        eval(m, world, registry, host, ctx, &items[i], env, (depth - 1) as u32)
    } else {
        Ok(SValue::Null)
    }
}

/// Evaluates the call of `name` on `items[1..]`.
fn eval_call<H: Host>(
    m: &mut Machine,
    world: &mut WorldStorage,
    registry: &PluginRegistry,
    host: &mut Door<H>,
    ctx: &ExecutionContext,
    name: &str,
    items: &Vec<SExpr>,
    env: usize,
    depth: u32,
) -> (r: Result<SValue, Signal>)
    requires
        old(m).wf(),
        old(world).wf(),
        env < old(m).frames@.len(),
        depth > 0,
    ensures
        advanced(old(m), final(m)),
        final(world).wf(),
        carried(old(world), old(host), final(world), final(host), registry),
        harmless_items(list_view(items@)) && !writes(name@) ==> untouched(old(m), old(world), old(host), final(m), final(world), final(host), ctx.this_id as int, registry.kinds()),
        agrees(
            final(m),
            final(world),
            *final(host) == *old(host),
            final(host).asked(),
            r,
            call_spec(
                state_of(old(m), old(world)),
                setting_of(ctx, registry),
                name@,
                list_view(items@),
                env as int,
                depth as nat,
            ),
        ),
    decreases depth, 4int, 0int,
{
    proof {
        lemma_kept_same(mark(world, host), registry.kinds(), registry.params());
        lemma_harmless_items(list_view(items@));
        lemma_list_view(items@);
    }
    proof {
        lemma_list_view(items@);
    }
    match parse_opcode(name) {
        Some(Opcode::StdSeq) => eval_seq(m, world, registry, host, ctx, items, env, depth),
        Some(Opcode::StdLet) => {
            let var = match name_at(items, 1) {
                Some(var) => var,
                None => {
                    return Err(type_error("std.let: expected a name"));
                },
            };
            let value = match eval_place(m, world, registry, host, ctx, items, 2, env, depth) {
                Ok(v) => v,
                Err(s) => {
                    return Err(s);
                },
            };
            m.declare(env, var, value.clone());
            Ok(value)
        },
        Some(Opcode::StdSet) => {
            let var = match name_at(items, 1) {
                Some(var) => var,
                None => {
                    return Err(type_error("std.set: expected a name"));
                },
            };
            let value = match eval_place(m, world, registry, host, ctx, items, 2, env, depth) {
                Ok(v) => v,
                Err(s) => {
                    return Err(s);
                },
            };
            if m.assign(env, var, value.clone()) {
                Ok(value)
            } else {
                Err(type_error("std.set: the variable is not bound"))
            }
        },
        Some(Opcode::StdVar) => {
            let var = match name_at(items, 1) {
                Some(var) => var,
                None => {
                    return Err(type_error("std.var: expected a name"));
                },
            };
            match m.lookup(env, var) {
                Some(v) => Ok(v.clone()),
                None => Ok(SValue::Null),
            }
        },
        Some(Opcode::StdIf) => {
            if items.len() < 3 {
                return Err(type_error("std.if: expected a condition and a branch"));
            }
            let cond = match eval(
                m,
                world,
                registry,
                host,
                ctx,
                &items[1],
                env,
                (depth - 1) as u32,
            ) {
                Ok(v) => v,
                Err(s) => {
                    return Err(s);
                },
            };
            if truthy(&cond) {
                eval(m, world, registry, host, ctx, &items[2], env, (depth - 1) as u32)
            } else {
                eval_place(m, world, registry, host, ctx, items, 3, env, depth)
            }
        },
        Some(Opcode::StdFor) => eval_for(m, world, registry, host, ctx, items, env, depth),
        Some(Opcode::StdWhile) => {
            if items.len() < 3 {
                return Err(type_error("std.while: expected a condition and a body"));
            }
            eval_while(m, world, registry, host, ctx, &items[1], &items[2], env, depth)
        },
        Some(Opcode::StdBreak) => Err(Signal::Break),
        Some(Opcode::StdContinue) => Err(Signal::Continue),
        Some(Opcode::StdTry) => eval_try(m, world, registry, host, ctx, items, env, depth),
        Some(Opcode::StdThrow) => {
            match eval_place(m, world, registry, host, ctx, items, 1, env, depth) {
                Ok(v) => Err(Signal::Throw(v)),
                Err(s) => Err(s),
            }
        },
        Some(Opcode::StdFn) => {
            if items.len() < 3 {
                return Err(type_error("std.fn: expected parameters and a body"));
            }
            let names = match &items[1] {
                SExpr::List(names) => names,
                _ => {
                    return Err(type_error("std.fn: expected a list of parameters"));
                },
            };
            proof {
                lemma_list_view(names@);
                let views = list_view(names@);
                assert((forall|i: int| 0 <= i < names@.len() ==> names@[i] is String) <==> (forall|
                    i: int,
                | 0 <= i < views.len() ==> views[i] is String)) by {
                    if forall|i: int| 0 <= i < names@.len() ==> names@[i] is String {
                        assert forall|i: int| 0 <= i < views.len() implies views[i] is String by {
                            assert(names@[i] is String);
                        }
                    }
                    if forall|i: int| 0 <= i < views.len() ==> views[i] is String {
                        assert forall|i: int| 0 <= i < names@.len() implies names@[i] is String by {
                            assert(views[i] is String);
                        }
                    }
                }
            }
            let params = match parameter_names(names) {
                Some(params) => params,
                None => {
                    return Err(type_error("std.fn: a parameter must be a name"));
                },
            };
            proof {
                let views = list_view(names@);
                assert(Seq::new(params@.len(), |i: int| params@[i]@) =~= Seq::new(
                    views.len(),
                    |i: int| views[i]->String_0,
                ));
            }
            let f = m.add_closure(params, items[2].clone(), env);
            Ok(SValue::Function(f))
        },
        Some(Opcode::BoolAnd) => {
            if items.len() < 3 {
                return Err(type_error("bool.and: expected two operands"));
            }
            let left = match eval(
                m,
                world,
                registry,
                host,
                ctx,
                &items[1],
                env,
                (depth - 1) as u32,
            ) {
                Ok(v) => v,
                Err(s) => {
                    return Err(s);
                },
            };
            if truthy(&left) {
                eval(m, world, registry, host, ctx, &items[2], env, (depth - 1) as u32)
            } else {
                Ok(left)
            }
        },
        Some(Opcode::BoolOr) => {
            if items.len() < 3 {
                return Err(type_error("bool.or: expected two operands"));
            }
            let left = match eval(
                m,
                world,
                registry,
                host,
                ctx,
                &items[1],
                env,
                (depth - 1) as u32,
            ) {
                Ok(v) => v,
                Err(s) => {
                    return Err(s);
                },
            };
            if truthy(&left) {
                Ok(left)
            } else {
                eval(m, world, registry, host, ctx, &items[2], env, (depth - 1) as u32)
            }
        },
        Some(Opcode::BoolGuard) => {
            if items.len() < 3 {
                return Err(type_error("bool.guard: expected a value and a fallback"));
            }
            let value = match eval(
                m,
                world,
                registry,
                host,
                ctx,
                &items[1],
                env,
                (depth - 1) as u32,
            ) {
                Ok(v) => v,
                Err(s) => {
                    return Err(s);
                },
            };
            match value {
                SValue::Null => eval(
                    m,
                    world,
                    registry,
                    host,
                    ctx,
                    &items[2],
                    env,
                    (depth - 1) as u32,
                ),
                _ => Ok(value),
            }
        },
        Some(Opcode::ObjNew) => eval_obj_new(m, world, registry, host, ctx, items, env, depth),
        Some(op) => {
            let vals = match eval_items(m, world, registry, host, ctx, items, 1, env, depth) {
                Ok(vals) => vals,
                Err(s) => {
                    return Err(s);
                },
            };
            apply_opcode(m, world, registry, host, ctx, op, vals, depth)
        },
        None => {
            let vals = match eval_items(m, world, registry, host, ctx, items, 1, env, depth) {
                Ok(vals) => vals,
                Err(s) => {
                    return Err(s);
                },
            };
            if registry.lookup(name).is_some() {
                return call_plugin_function(world, registry, host, ctx, name, &vals);
            }
            let f = match m.lookup(env, name) {
                Some(SValue::Function(f)) => *f,
                _ => {
                    return Err(
                        Signal::Fail(
                            ExecutionError::Validation(
                                ValidationError::UnknownOpcode(name.to_owned()),
                            ),
                        ),
                    );
                },
            };
            apply_closure(m, world, registry, host, ctx, f, vals, depth)
        },
    }
}

/// A host effect: the request is prepared, which takes a capability; the
/// host invokes the plugin; the reply is read. Without a capability of
/// the kind that the function takes on the receiver's prototype chain, the
/// host is not asked.
pub fn call_plugin_function<H: Host>(
    world: &WorldStorage,
    registry: &PluginRegistry,
    host: &mut Door<H>,
    ctx: &ExecutionContext,
    name: &str,
    args: &Vec<SValue>,
) -> (r: Result<SValue, Signal>)
    requires
        world.wf(),
    ensures
        r is Err ==> r->Err_0 is Fail,
        crate::registry::slot_of(registry.names(), name@) is None ==> {
            &&& r matches Err(Signal::Fail(ExecutionError::PluginError(text)))
            &&& text@ == crate::hostcall::not_registered_text(name@)
            &&& *final(host) == *old(host)
        },
        crate::registry::slot_of(registry.names(), name@) matches Some(slot) ==> ({
            let o = crate::semantics::host_effect_spec(
                world@,
                setting_of(ctx, registry),
                slot,
                items_view(args@),
            );
            (o is Host && final(host).asked()) || (outcome_of(r) == o && *final(host) == *old(host))
        }),
        crate::registry::slot_of(registry.names(), name@) matches Some(slot)
            && crate::prototype::inherited_capability(
            world@,
            ctx.this_id as int,
            registry.kinds()[slot],
        ) is None ==> *final(host) == *old(host),
        final(host).invoked() == old(host).invoked() || (exists|c: crate::entity::CapabilityView, slot: int|
            #[trigger] authorizes(
                world@,
                registry.kinds(),
                registry.params(),
                final(host).invoked().last().input,
                ctx.this_id as int,
                slot,
                c,
                items_view(args@),
            ) && final(host).invoked() == old(host).invoked().push(
                Invocation {
                    entity: ctx.this_id as int,
                    slot,
                    input: final(host).invoked().last().input,
                },
            )),
        final(host).invoked() == old(host).invoked() || (exists|
            lent: &mut H,
            request: &PluginRequest,
            reply: PluginReply,
        |
            {
                &&& mut_ref_current(lent) == old(host).inner()
                &&& mut_ref_future(lent) == final(host).inner()
                &&& #[trigger] call_ensures(H::invoke, (lent, request), reply)
                &&& request.name@ == name@
                &&& crate::registry::slot_of(registry.names(), name@) == Some(request.slot as int)
                &&& request.invocation() == final(host).invoked().last()
                &&& match r {
                    Ok(v) => reads_as(name@, reply, Ok(v)),
                    Err(s) => s is Fail && reads_as(name@, reply, Err(s->Fail_0)),
                }
            }),
        carried(world, old(host), world, final(host), registry),
{
    proof {
        lemma_kept_same(mark(world, host), registry.kinds(), registry.params());
    }
    let request = match prepare_host_call(world, registry, ctx.this_id, name, args) {
        Ok(request) => request,
        Err(e) => {
            return Err(Signal::Fail(e));
        },
    };
    proof {
        let slot = crate::registry::slot_of(registry.names(), name@)->0;
        let c = crate::prototype::inherited_capability(
            world@,
            ctx.this_id as int,
            registry.kinds()[slot],
        )->0;
        crate::registry::lemma_slot_of(registry.names(), name@);
        registry.lemma_lengths();
        assert(authorizes(
            world@,
            registry.kinds(),
            registry.params(),
            request.input@,
            ctx.this_id as int,
            slot,
            c,
            items_view(args@),
        ));
        let call = request.invocation();
        assert(authorizes(
            world@,
            registry.kinds(),
            registry.params(),
            call.input,
            call.entity,
            call.slot,
            c,
            items_view(args@),
        ));
        lemma_kept_invoke(mark(world, host), call, registry.kinds(), registry.params());
    }
    let reply = host.invoke(&request);
    proof {
        let slot = crate::registry::slot_of(registry.names(), name@)->0;
        let c = crate::prototype::inherited_capability(
            world@,
            ctx.this_id as int,
            registry.kinds()[slot],
        )->0;
        assert(host.invoked().last() == request.invocation());
        assert(authorizes(
            world@,
            registry.kinds(),
            registry.params(),
            host.invoked().last().input,
            ctx.this_id as int,
            slot,
            c,
            items_view(args@),
        ));
    }
    match interpret_reply(name, reply) {
        Ok(v) => Ok(v),
        Err(e) => Err(Signal::Fail(e)),
    }
}

/// `std.seq(e1, …, eN)`: each in order; the value of the last.
fn eval_seq<H: Host>(
    m: &mut Machine,
    world: &mut WorldStorage,
    registry: &PluginRegistry,
    host: &mut Door<H>,
    ctx: &ExecutionContext,
    items: &Vec<SExpr>,
    env: usize,
    depth: u32,
) -> (r: Result<SValue, Signal>)
    requires
        old(m).wf(),
        old(world).wf(),
        env < old(m).frames@.len(),
        depth > 0,
    ensures
        advanced(old(m), final(m)),
        final(world).wf(),
        carried(old(world), old(host), final(world), final(host), registry),
        harmless_items(list_view(items@)) ==> untouched(old(m), old(world), old(host), final(m), final(world), final(host), ctx.this_id as int, registry.kinds()),
        agrees(
            final(m),
            final(world),
            *final(host) == *old(host),
            final(host).asked(),
            r,
            seq_spec(
                state_of(old(m), old(world)),
                setting_of(ctx, registry),
                list_view(items@),
                1,
                SValueView::Null,
                env as int,
                depth as nat,
            ),
        ),
    decreases depth, 2int, 0int,
{
    proof {
        lemma_kept_same(mark(world, host), registry.kinds(), registry.params());
        lemma_harmless_items(list_view(items@));
        lemma_list_view(items@);
    }
    let ghost cx = setting_of(ctx, registry);
    let ghost all = list_view(items@);
    let ghost total = seq_spec(
        state_of(m, world),
        cx,
        all,
        1,
        SValueView::Null,
        env as int,
        depth as nat,
    );
    proof {
        lemma_list_view(items@);
    }
    let mut last = SValue::Null;
    let mut i: usize = 1;
    while i < items.len()
        invariant
            advanced(old(m), m),
            world.wf(),
            carried(old(world), old(host), world, host, registry),
            harmless_items(list_view(items@)) ==> untouched(old(m), old(world), old(host), m, world, host, ctx.this_id as int, registry.kinds()),
            env < old(m).frames@.len(),
            depth > 0,
            1 <= i,
            cx == setting_of(ctx, registry),
            all == list_view(items@),
            all.len() == items.len(),
            forall|j: int| 0 <= j < items.len() ==> (#[trigger] all[j]) == items@[j]@,
            total == seq_spec(
                state_of(old(m), old(world)),
                cx,
                all,
                1,
                SValueView::Null,
                env as int,
                depth as nat,
            ),
            total.1 is Host && host.asked() || *host == *old(host) && total == seq_spec(
                state_of(m, world),
                cx,
                all,
                i as int,
                last@,
                env as int,
                depth as nat,
            ),
        decreases items.len() - i,
    {
        proof {
            lemma_harmless_items(list_view(items@));
            lemma_list_view(items@);
        }
        match eval(m, world, registry, host, ctx, &items[i], env, (depth - 1) as u32) {
            Ok(v) => {
                last = v;
            },
            Err(s) => {
                return Err(s);
            },
        }
        i += 1;
    }
    Ok(last)
}

/// `std.for(var, iterable, body)`: the body once for each item, in a
/// scope of its own that binds `var`.
fn eval_for<H: Host>(
    m: &mut Machine,
    world: &mut WorldStorage,
    registry: &PluginRegistry,
    host: &mut Door<H>,
    ctx: &ExecutionContext,
    items: &Vec<SExpr>,
    env: usize,
    depth: u32,
) -> (r: Result<SValue, Signal>)
    requires
        old(m).wf(),
        old(world).wf(),
        env < old(m).frames@.len(),
        depth > 0,
    ensures
        advanced(old(m), final(m)),
        final(world).wf(),
        carried(old(world), old(host), final(world), final(host), registry),
        harmless_items(list_view(items@)) ==> untouched(old(m), old(world), old(host), final(m), final(world), final(host), ctx.this_id as int, registry.kinds()),
        agrees(
            final(m),
            final(world),
            *final(host) == *old(host),
            final(host).asked(),
            r,
            for_spec(
                state_of(old(m), old(world)),
                setting_of(ctx, registry),
                list_view(items@),
                env as int,
                depth as nat,
            ),
        ),
    decreases depth, 3int, 0int,
{
    proof {
        lemma_kept_same(mark(world, host), registry.kinds(), registry.params());
        lemma_harmless_items(list_view(items@));
        lemma_list_view(items@);
    }
    proof {
        lemma_list_view(items@);
    }
    let var = match name_at(items, 1) {
        Some(var) => var,
        None => {
            return Err(type_error("std.for: expected a name"));
        },
    };
    if items.len() < 4 {
        return Err(type_error("std.for: expected a list and a body"));
    }
    let list = match eval(m, world, registry, host, ctx, &items[2], env, (depth - 1) as u32) {
        Ok(SValue::Array(list)) => list,
        Ok(_) => {
            return Err(type_error("std.for: expected a list"));
        },
        Err(s) => {
            return Err(s);
        },
    };
    let ghost cx = setting_of(ctx, registry);
    let ghost values = items_view(list@);
    let ghost total = for_spec(
        state_of(old(m), old(world)),
        cx,
        list_view(items@),
        env as int,
        depth as nat,
    );
    proof {
        lemma_items_view(list@);
    }
    let mut i: usize = 0;
    while i < list.len()
        invariant
            advanced(old(m), m),
            world.wf(),
            carried(old(world), old(host), world, host, registry),
            harmless_items(list_view(items@)) ==> untouched(old(m), old(world), old(host), m, world, host, ctx.this_id as int, registry.kinds()),
            env < old(m).frames@.len(),
            depth > 0,
            items@.len() >= 4,
            i <= list.len(),
            cx == setting_of(ctx, registry),
            values == items_view(list@),
            values.len() == list.len(),
            forall|j: int| 0 <= j < list.len() ==> (#[trigger] values[j]) == list@[j]@,
            total == for_spec(
                state_of(old(m), old(world)),
                cx,
                list_view(items@),
                env as int,
                depth as nat,
            ),
            total.1 is Host && host.asked() || *host == *old(host) && total == for_loop_spec(
                state_of(m, world),
                cx,
                var@,
                values,
                i as int,
                items@[3]@,
                env as int,
                depth as nat,
            ),
        decreases list.len() - i,
    {
        proof {
            lemma_harmless_items(list_view(items@));
            lemma_list_view(items@);
        }
        let frame = m.push_frame(Some(env));
        m.declare(frame, var, list[i].clone());
        match eval(m, world, registry, host, ctx, &items[3], frame, (depth - 1) as u32) {
            Ok(_) => {},
            Err(Signal::Continue) => {},
            Err(Signal::Break) => {
                return Ok(SValue::Null);
            },
            Err(s) => {
                return Err(s);
            },
        }
        i += 1;
    }
    Ok(SValue::Null)
}

/// `std.while(cond, body)`: the body, in a scope of its own, for as long
/// as the condition holds.
fn eval_while<H: Host>(
    m: &mut Machine,
    world: &mut WorldStorage,
    registry: &PluginRegistry,
    host: &mut Door<H>,
    ctx: &ExecutionContext,
    cond: &SExpr,
    body: &SExpr,
    env: usize,
    depth: u32,
) -> (r: Result<SValue, Signal>)
    requires
        old(m).wf(),
        old(world).wf(),
        env < old(m).frames@.len(),
        depth > 0,
    ensures
        advanced(old(m), final(m)),
        final(world).wf(),
        carried(old(world), old(host), final(world), final(host), registry),
        harmless(cond@) && harmless(body@) ==> untouched(old(m), old(world), old(host), final(m), final(world), final(host), ctx.this_id as int, registry.kinds()),
        agrees(
            final(m),
            final(world),
            *final(host) == *old(host),
            final(host).asked(),
            r,
            while_spec(
                state_of(old(m), old(world)),
                setting_of(ctx, registry),
                cond@,
                body@,
                env as int,
                depth as nat,
            ),
        ),
    decreases depth, 3int, 0int,
{
    proof {
        lemma_kept_same(mark(world, host), registry.kinds(), registry.params());
    }
    let ghost cx = setting_of(ctx, registry);
    let ghost total = while_spec(state_of(m, world), cx, cond@, body@, env as int, depth as nat);
    loop
        invariant
            advanced(old(m), m),
            world.wf(),
            carried(old(world), old(host), world, host, registry),
            harmless(cond@) && harmless(body@) ==> untouched(old(m), old(world), old(host), m, world, host, ctx.this_id as int, registry.kinds()),
            env < old(m).frames@.len(),
            depth > 0,
            cx == setting_of(ctx, registry),
            total == while_spec(
                state_of(old(m), old(world)),
                cx,
                cond@,
                body@,
                env as int,
                depth as nat,
            ),
            total.1 is Host && host.asked() || *host == *old(host) && total == while_spec(
                state_of(m, world),
                cx,
                cond@,
                body@,
                env as int,
                depth as nat,
            ),
        decreases m.steps,
    {
        if !m.tick() {
            return Err(Signal::Fail(ExecutionError::BudgetExceeded));
        }
        let truth = match eval(m, world, registry, host, ctx, cond, env, (depth - 1) as u32) {
            Ok(v) => v,
            Err(s) => {
                return Err(s);
            },
        };
        if !truthy(&truth) {
            return Ok(SValue::Null);
        }
        let frame = m.push_frame(Some(env));
        match eval(m, world, registry, host, ctx, body, frame, (depth - 1) as u32) {
            Ok(_) => {},
            Err(Signal::Continue) => {},
            Err(Signal::Break) => {
                return Ok(SValue::Null);
            },
            Err(s) => {
                return Err(s);
            },
        }
    }
}

/// `std.try(body, errName, handler)`: the body; if a value is thrown in
/// it, the handler, in a scope that binds `errName` to the value. A
/// failure that is not a throw is not caught.
fn eval_try<H: Host>(
    m: &mut Machine,
    world: &mut WorldStorage,
    registry: &PluginRegistry,
    host: &mut Door<H>,
    ctx: &ExecutionContext,
    items: &Vec<SExpr>,
    env: usize,
    depth: u32,
) -> (r: Result<SValue, Signal>)
    requires
        old(m).wf(),
        old(world).wf(),
        env < old(m).frames@.len(),
        depth > 0,
    ensures
        advanced(old(m), final(m)),
        final(world).wf(),
        carried(old(world), old(host), final(world), final(host), registry),
        harmless_items(list_view(items@)) ==> untouched(old(m), old(world), old(host), final(m), final(world), final(host), ctx.this_id as int, registry.kinds()),
        agrees(
            final(m),
            final(world),
            *final(host) == *old(host),
            final(host).asked(),
            r,
            try_spec(
                state_of(old(m), old(world)),
                setting_of(ctx, registry),
                list_view(items@),
                env as int,
                depth as nat,
            ),
        ),
    decreases depth, 3int, 0int,
{
    proof {
        lemma_kept_same(mark(world, host), registry.kinds(), registry.params());
        lemma_harmless_items(list_view(items@));
        lemma_list_view(items@);
    }
    if items.len() < 4 {
        return Err(type_error("std.try: expected a body, a name and a handler"));
    }
    proof {
        assert(list_view(items@)[1] == items@[1]@);
        assert(list_view(items@)[3] == items@[3]@);
    }
    let var = match name_at(items, 2) {
        Some(var) => var,
        None => {
            return Err(type_error("std.try: expected a name"));
        },
    };
    let thrown = match eval(m, world, registry, host, ctx, &items[1], env, (depth - 1) as u32) {
        Ok(v) => {
            return Ok(v);
        },
        Err(Signal::Throw(v)) => v,
        Err(Signal::Fail(ExecutionError::ScriptThrow(v))) => v,
        Err(s) => {
            return Err(s);
        },
    };
    let frame = m.push_frame(Some(env));
    m.declare(frame, var, thrown);
    eval(m, world, registry, host, ctx, &items[3], frame, (depth - 1) as u32)
}

/// `obj.new(…)`: an object of the given pairs. A pair is a two-item list
/// of a key and an expression, or a key followed by an expression.
fn eval_obj_new<H: Host>(
    m: &mut Machine,
    world: &mut WorldStorage,
    registry: &PluginRegistry,
    host: &mut Door<H>,
    ctx: &ExecutionContext,
    items: &Vec<SExpr>,
    env: usize,
    depth: u32,
) -> (r: Result<SValue, Signal>)
    requires
        old(m).wf(),
        old(world).wf(),
        env < old(m).frames@.len(),
        depth > 0,
    ensures
        advanced(old(m), final(m)),
        final(world).wf(),
        carried(old(world), old(host), final(world), final(host), registry),
        harmless_items(list_view(items@)) ==> untouched(old(m), old(world), old(host), final(m), final(world), final(host), ctx.this_id as int, registry.kinds()),
        agrees(
            final(m),
            final(world),
            *final(host) == *old(host),
            final(host).asked(),
            r,
            obj_new_spec(
                state_of(old(m), old(world)),
                setting_of(ctx, registry),
                list_view(items@),
                1,
                Seq::empty(),
                env as int,
                depth as nat,
            ),
        ),
    decreases depth, 2int, 0int,
{
    proof {
        lemma_kept_same(mark(world, host), registry.kinds(), registry.params());
        lemma_harmless_items(list_view(items@));
        lemma_list_view(items@);
    }
    let ghost cx = setting_of(ctx, registry);
    let ghost all = list_view(items@);
    let ghost total = obj_new_spec(
        state_of(m, world),
        cx,
        all,
        1,
        Seq::empty(),
        env as int,
        depth as nat,
    );
    let mut out: Vec<(String, SValue)> = Vec::new();
    proof {
        lemma_list_view(items@);
        lemma_pairs_view(out@);
        assert(pairs_view(out@) =~= Seq::empty());
    }
    let mut i: usize = 1;
    while i < items.len()
        invariant
            advanced(old(m), m),
            world.wf(),
            carried(old(world), old(host), world, host, registry),
            harmless_items(list_view(items@)) ==> untouched(old(m), old(world), old(host), m, world, host, ctx.this_id as int, registry.kinds()),
            env < old(m).frames@.len(),
            depth > 0,
            1 <= i,
            cx == setting_of(ctx, registry),
            all == list_view(items@),
            all.len() == items.len(),
            forall|j: int| 0 <= j < items.len() ==> (#[trigger] all[j]) == items@[j]@,
            total == obj_new_spec(
                state_of(old(m), old(world)),
                cx,
                all,
                1,
                Seq::empty(),
                env as int,
                depth as nat,
            ),
            total.1 is Host && host.asked() || *host == *old(host) && total == obj_new_spec(
                state_of(m, world),
                cx,
                all,
                i as int,
                pairs_view(out@),
                env as int,
                depth as nat,
            ),
        decreases items.len() - i,
    {
        proof {
            lemma_harmless_items(list_view(items@));
            lemma_list_view(items@);
        }
        match &items[i] {
            SExpr::List(pair) => {
                proof {
                    lemma_list_view(pair@);
                }
                if pair.len() != 2 {
                    return Err(type_error("obj.new: a pair has a key and a value"));
                }
                let key = match &pair[0] {
                    SExpr::String(key) => key,
                    _ => {
                        return Err(type_error("obj.new: a key must be a string"));
                    },
                };
                match eval(m, world, registry, host, ctx, &pair[1], env, (depth - 1) as u32) {
                    Ok(v) => {
                        set_entry(&mut out, key.as_str(), v);
                    },
                    Err(s) => {
                        return Err(s);
                    },
                }
                i += 1;
            },
            SExpr::String(key) => {
                if i + 1 >= items.len() {
                    return Err(type_error("obj.new: a key without a value"));
                }
                match eval(m, world, registry, host, ctx, &items[i + 1], env, (depth - 1) as u32) {
                    Ok(v) => {
                        set_entry(&mut out, key.as_str(), v);
                    },
                    Err(s) => {
                        return Err(s);
                    },
                }
                i += 2;
            },
            _ => {
                return Err(type_error("obj.new: a key must be a string"));
            },
        }
    }
    Ok(SValue::Object(out))
}

/// The outcome of an opcode that computes on values alone.
fn apply_pure<H: Host>(host: &mut Door<H>, ctx: &ExecutionContext, op: Opcode, vals: Vec<SValue>) -> (r:
    Result<SValue, Signal>)
    ensures
        ({
            let o = crate::semantics::pure_outcome(
                Setting {
                    this: ctx.this@,
                    this_id: ctx.this_id as int,
                    caller_id: match ctx.caller_id {
                        Some(id) => Some(id as int),
                        None => None,
                    },
                    args: items_view(ctx.args@),
                    now_ms: ctx.now_ms as int,
                    names: Seq::empty(),
                    kinds: Seq::empty(),
                },
                op,
                items_view(vals@),
            );
            (o is Host && final(host).asked()) || (outcome_of(r) == o && *final(host) == *old(
                host,
            ))
        }),
        final(host).invoked() == old(host).invoked(),
        old(host).asked() ==> final(host).asked(),
{
    proof {
        lemma_items_view(vals@);
        lemma_items_view(ctx.args@);
    }
    let a = arg_at(&vals, 0);
    let b = arg_at(&vals, 1);
    let result = match op {
        Opcode::StdCaller => Ok(
            match ctx.caller_id {
                Some(id) => SValue::Number(Number::Int(id)),
                None => SValue::Null,
            },
        ),
        Opcode::StdThis => Ok(ctx.this.clone()),
        Opcode::TimeNow => Ok(SValue::Number(Number::Int(ctx.now_ms))),
        Opcode::StdArgs => Ok(SValue::Array(copy_items(&ctx.args))),
        Opcode::StdArg => list_get_arg(&ctx.args, &a),
        Opcode::Math(math) => arithmetic(host, math, &a, &b),
        Opcode::MathNeg => negation(host, &a),
        Opcode::BoolEq => Ok(SValue::Bool(values_equal(host, &a, &b))),
        Opcode::BoolNeq => Ok(SValue::Bool(!values_equal(host, &a, &b))),
        Opcode::Compare(c) => ordering(host, c, &a, &b),
        Opcode::BoolNot => Ok(SValue::Bool(!truthy(&a))),
        Opcode::StrConcat => str_concat(&vals),
        Opcode::StrLen => str_len(&a),
        Opcode::StrSlice => str_slice(&a, &b, &arg_at(&vals, 2)),
        Opcode::ListNew => Ok(SValue::Array(vals)),
        Opcode::ListGet => list_get(&a, &b),
        Opcode::ListLen => list_len(&a),
        Opcode::ObjGet => obj_get(&a, &b),
        Opcode::ObjSet => obj_set(&a, &b, arg_at(&vals, 2)),
        Opcode::ObjKeys => obj_keys(&a),
        _ => Err(ExecutionError::TypeError("the opcode takes its arguments unevaluated".to_owned())),
    };
    match result {
        Ok(v) => Ok(v),
        Err(e) => Err(Signal::Fail(e)),
    }
}

/// Applies an opcode that takes its arguments evaluated.
fn apply_opcode<H: Host>(
    m: &mut Machine,
    world: &mut WorldStorage,
    registry: &PluginRegistry,
    host: &mut Door<H>,
    ctx: &ExecutionContext,
    op: Opcode,
    vals: Vec<SValue>,
    depth: u32,
) -> (r: Result<SValue, Signal>)
    requires
        old(m).wf(),
        old(world).wf(),
        depth > 0,
    ensures
        advanced(old(m), final(m)),
        final(world).wf(),
        carried(old(world), old(host), final(world), final(host), registry),
        !(op is Create || op is Update || op is Schedule || op is Call) ==> untouched(old(m), old(world), old(host), final(m), final(world), final(host), ctx.this_id as int, registry.kinds()),
        agrees(
            final(m),
            final(world),
            *final(host) == *old(host),
            final(host).asked(),
            r,
            apply_spec(
                state_of(old(m), old(world)),
                setting_of(ctx, registry),
                op,
                items_view(vals@),
                depth as nat,
            ),
        ),
    decreases depth, 3int, 0int,
{
    let ghost start = mark(world, host);
    proof {
        lemma_kept_same(start, registry.kinds(), registry.params());
        lemma_items_view(vals@);
    }
    match op {
        Opcode::ListMap => {
            let a = arg_at(&vals, 0);
            let b = arg_at(&vals, 1);
            map_list(m, world, registry, host, ctx, a, b, false, depth)
        },
        Opcode::ListFilter => {
            let a = arg_at(&vals, 0);
            let b = arg_at(&vals, 1);
            map_list(m, world, registry, host, ctx, a, b, true, depth)
        },
        Opcode::Entity => {
            let a = arg_at(&vals, 0);
            match to_entity_id(&a) {
                Some(id) => match opcode_entity(world, id) {
                    Ok(v) => Ok(v),
                    Err(e) => Err(Signal::Fail(e)),
                },
                None => Err(type_error("entity: expected an id")),
            }
        },
        Opcode::Create => {
            let a = arg_at(&vals, 0);
            let b = arg_at(&vals, 1);
            let prototype = match &b {
                SValue::Null => None,
                _ => match to_entity_id(&b) {
                    Some(p) => Some(p),
                    None => {
                        return Err(type_error("create: expected a prototype id"));
                    },
                },
            };
            let made = opcode_create(world, a, prototype);
            proof {
                lemma_kept_world(start, world@, registry.kinds(), registry.params());
            }
            match made {
                Ok(id) => Ok(SValue::Number(Number::Int(id))),
                Err(e) => Err(Signal::Fail(e)),
            }
        },
        Opcode::Update => {
            let a = arg_at(&vals, 0);
            let b = arg_at(&vals, 1);
            match to_entity_id(&a) {
                Some(id) => {
                    let done = opcode_update(world, id, &b);
                    proof {
                        lemma_kept_world(start, world@, registry.kinds(), registry.params());
                    }
                    match done {
                        Ok(()) => Ok(SValue::Null),
                        Err(e) => Err(Signal::Fail(e)),
                    }
                },
                None => Err(type_error("update: expected an id")),
            }
        },
        Opcode::Call => {
            let a = arg_at(&vals, 0);
            let b = arg_at(&vals, 1);
            let c = arg_at(&vals, 2);
            call_verb(m, world, registry, host, ctx, a, b, c, depth)
        },
        Opcode::Schedule => {
            let a = arg_at(&vals, 0);
            let b = arg_at(&vals, 1);
            let c = arg_at(&vals, 2);
            let passed = call_args(b);
            let delay = to_entity_id(&c);
            match (a, passed, delay) {
                (SValue::String(name), Some(passed), Some(delay_ms)) => {
                    if !all_data_in(&passed) {
                        return Err(type_error("schedule: the arguments must be data"));
                    }
                    let task = Scheduler::new().schedule(
                        world,
                        ctx.this_id,
                        name.as_str(),
                        SValue::Array(passed),
                        delay_ms,
                        ctx.now_ms,
                    );
                    proof {
                        lemma_kept_world(start, world@, registry.kinds(), registry.params());
                    }
                    match task {
                        Ok(id) => Ok(SValue::Number(Number::Int(id))),
                        Err(e) => Err(Signal::Fail(ExecutionError::Storage(e))),
                    }
                },
                _ => Err(type_error("schedule: expected a verb, arguments and a delay")),
            }
        },
        _ => apply_pure(host, ctx, op, vals),
    }
}

/// `std.arg(i)`: the argument of the call at position `i`; null where
/// there is none.
fn list_get_arg(args: &Vec<SValue>, index: &SValue) -> (r: Result<SValue, ExecutionError>)
    ensures
        match crate::opcodes::entity_id_of(index@) {
            Some(i) => r is Ok && r->Ok_0@ == arg(items_view(args@), i as int),
            None => r is Err && r->Err_0 is TypeError,
        },
{
    proof {
        lemma_items_view(args@);
    }
    match to_entity_id(index) {
        Some(i) => if 0 <= i && (i as u64) < args.len() as u64 {
            Ok(args[i as usize].clone())
        } else {
            Ok(SValue::Null)
        },
        None => Err(ExecutionError::TypeError("std.arg: expected an integer".to_owned())),
    }
}

/// `list.map(list, f)` and `list.filter(list, f)`: `f` on each item; the
/// results, or the items for which the result counts as true.
fn map_list<H: Host>(
    m: &mut Machine,
    world: &mut WorldStorage,
    registry: &PluginRegistry,
    host: &mut Door<H>,
    ctx: &ExecutionContext,
    list: SValue,
    function: SValue,
    filter: bool,
    depth: u32,
) -> (r: Result<SValue, Signal>)
    requires
        old(m).wf(),
        old(world).wf(),
        depth > 0,
    ensures
        advanced(old(m), final(m)),
        final(world).wf(),
        carried(old(world), old(host), final(world), final(host), registry),
        untouched(old(m), old(world), old(host), final(m), final(world), final(host), ctx.this_id as int, registry.kinds()),
        agrees(
            final(m),
            final(world),
            *final(host) == *old(host),
            final(host).asked(),
            r,
            map_spec(
                state_of(old(m), old(world)),
                setting_of(ctx, registry),
                list@,
                function@,
                filter,
                depth as nat,
            ),
        ),
    decreases depth, 2int, 1int,
{
    proof {
        lemma_kept_same(mark(world, host), registry.kinds(), registry.params());
    }
    let items = match list {
        SValue::Array(items) => items,
        _ => {
            return Err(type_error("expected a list"));
        },
    };
    let f = match function {
        SValue::Function(f) => f,
        _ => {
            return Err(type_error("expected a function"));
        },
    };
    let ghost cx = setting_of(ctx, registry);
    let ghost values = items_view(items@);
    let ghost total = map_loop_spec(
        state_of(old(m), old(world)),
        cx,
        values,
        0,
        f as int,
        filter,
        Seq::empty(),
        depth as nat,
    );
    let mut out: Vec<SValue> = Vec::new();
    proof {
        lemma_items_view(items@);
        lemma_items_view(out@);
        assert(items_view(out@) =~= Seq::empty());
    }
    let mut i: usize = 0;
    while i < items.len()
        invariant
            advanced(old(m), m),
            world.wf(),
            carried(old(world), old(host), world, host, registry),
            untouched(old(m), old(world), old(host), m, world, host, ctx.this_id as int, registry.kinds()),
            depth > 0,
            i <= items.len(),
            cx == setting_of(ctx, registry),
            values == items_view(items@),
            values.len() == items.len(),
            forall|j: int| 0 <= j < items.len() ==> (#[trigger] values[j]) == items@[j]@,
            list@ == SValueView::Array(values),
            function@ == SValueView::Function(f),
            total == map_loop_spec(
                state_of(old(m), old(world)),
                cx,
                values,
                0,
                f as int,
                filter,
                Seq::empty(),
                depth as nat,
            ),
            total.1 is Host && host.asked() || *host == *old(host) && total == map_loop_spec(
                state_of(m, world),
                cx,
                values,
                i as int,
                f as int,
                filter,
                items_view(out@),
                depth as nat,
            ),
        decreases items.len() - i,
    {
        let mut args: Vec<SValue> = Vec::new();
        args.push(items[i].clone());
        proof {
            lemma_items_view(args@);
            assert(items_view(args@) =~= seq![values[i as int]]);
        }
        match apply_closure(m, world, registry, host, ctx, f, args, depth) {
            Ok(v) => {
                let ghost before = out@;
                if !filter {
                    out.push(v);
                    proof {
                        lemma_value_pushed(before, out@, v);
                    }
                } else if truthy(&v) {
                    let item = items[i].clone();
                    out.push(item);
                    proof {
                        lemma_value_pushed(before, out@, item);
                    }
                }
            },
            Err(s) => {
                return Err(s);
            },
        }
        i += 1;
    }
    Ok(SValue::Array(out))
}

/// Calls the function number `f` on `args`: the body, in a new scope
/// inside the scope in which the function was made, with each parameter
/// bound to its argument, or to null where there is none.
fn apply_closure<H: Host>(
    m: &mut Machine,
    world: &mut WorldStorage,
    registry: &PluginRegistry,
    host: &mut Door<H>,
    ctx: &ExecutionContext,
    f: usize,
    args: Vec<SValue>,
    depth: u32,
) -> (r: Result<SValue, Signal>)
    requires
        old(m).wf(),
        old(world).wf(),
        depth > 0,
    ensures
        advanced(old(m), final(m)),
        final(world).wf(),
        carried(old(world), old(host), final(world), final(host), registry),
        untouched(old(m), old(world), old(host), final(m), final(world), final(host), ctx.this_id as int, registry.kinds()),
        agrees(
            final(m),
            final(world),
            *final(host) == *old(host),
            final(host).asked(),
            r,
            closure_spec(
                state_of(old(m), old(world)),
                setting_of(ctx, registry),
                f as int,
                items_view(args@),
                depth as nat,
            ),
        ),
    decreases depth, 1int, 0int,
{
    proof {
        lemma_kept_same(mark(world, host), registry.kinds(), registry.params());
    }
    if f >= m.closures.len() {
        return Err(type_error("not a function of this call"));
    }
    let ghost closure = m.functions()[f as int];
    let body = m.closures[f].body.clone();
    let parent = m.closures[f].env;
    let frame = m.push_frame(Some(parent));
    let count = m.closures[f].params.len();
    let ghost values = items_view(args@);
    let ghost scopes0 = m.scopes();
    proof {
        lemma_items_view(args@);
    }
    let mut i: usize = 0;
    while i < count
        invariant
            advanced(old(m), m),
            f < m.closures@.len(),
            m.functions() == old(m).functions(),
            m.steps == old(m).steps,
            closure == m.functions()[f as int],
            count == m.closures@[f as int].params@.len(),
            count == closure.params.len(),
            frame < m.frames@.len(),
            i <= count,
            values == items_view(args@),
            values.len() == args@.len(),
            forall|j: int| 0 <= j < args@.len() ==> (#[trigger] values[j]) == args@[j]@,
            crate::semantics::bound(scopes0, frame as int, closure.params, values, 0)
                == crate::semantics::bound(m.scopes(), frame as int, closure.params, values, i as int),
        decreases count - i,
    {
        let name = m.closures[f].params[i].clone();
        m.declare(frame, name.as_str(), arg_at(&args, i));
        i += 1;
    }
    match eval(m, world, registry, host, ctx, &body, frame, (depth - 1) as u32) {
        Ok(v) => Ok(v),
        Err(Signal::Break) => Err(type_error("std.break outside of a loop")),
        Err(Signal::Continue) => Err(type_error("std.continue outside of a loop")),
        Err(s) => Err(s),
    }
}

/// `call(target, verb, args)`: the verb on the target entity, with the
/// receiver of the running verb as caller.
fn call_verb<H: Host>(
    m: &mut Machine,
    world: &mut WorldStorage,
    registry: &PluginRegistry,
    host: &mut Door<H>,
    ctx: &ExecutionContext,
    target: SValue,
    verb: SValue,
    args: SValue,
    depth: u32,
) -> (r: Result<SValue, Signal>)
    requires
        old(m).wf(),
        old(world).wf(),
        depth > 0,
    ensures
        advanced(old(m), final(m)),
        final(world).wf(),
        carried(old(world), old(host), final(world), final(host), registry),
        agrees(
            final(m),
            final(world),
            *final(host) == *old(host),
            final(host).asked(),
            r,
            call_verb_spec(
                state_of(old(m), old(world)),
                setting_of(ctx, registry),
                target@,
                verb@,
                args@,
                depth as nat,
            ),
        ),
    decreases depth, 2int, 0int,
{
    proof {
        lemma_kept_same(mark(world, host), registry.kinds(), registry.params());
    }
    let id = match call_target(&target) {
        Some(id) => id,
        None => {
            return Err(type_error("call: target entity missing id"));
        },
    };
    let name = match verb {
        SValue::String(name) => name,
        _ => {
            return Err(type_error("call: expected a verb name"));
        },
    };
    let args = match call_args(args) {
        Some(args) => args,
        None => {
            return Err(type_error("call: args must be an array"));
        },
    };
    match run_verb(
        m,
        world,
        registry,
        host,
        id,
        name.as_str(),
        args,
        Some(ctx.this_id),
        ctx.now_ms,
        depth,
    ) {
        Ok(v) => Ok(v),
        Err(e) => Err(Signal::Fail(e)),
    }
}

/// The id of the entity that `call` is aimed at: the target's `id` where
/// the target is an object, else the id that the target denotes.
pub fn call_target(target: &SValue) -> (r: Option<EntityId>)
    ensures
        r == target_of(target@),
{
    match target {
        SValue::Object(_) => match target.get("id") {
            Some(id) => to_entity_id(id),
            None => None,
        },
        _ => to_entity_id(target),
    }
}

/// The arguments that `call` passes on: the items of a list; none for
/// null and for an object without fields.
pub fn call_args(args: SValue) -> (r: Option<Vec<SValue>>)
    ensures
        match r {
            Some(items) => passed_args(args@) == Some(items_view(items@)),
            None => passed_args(args@) is None,
        },
{
    match args {
        SValue::Array(items) => Some(items),
        SValue::Null => {
            let none: Vec<SValue> = Vec::new();
            proof {
                lemma_items_view(none@);
                assert(items_view(none@) =~= Seq::empty());
            }
            Some(none)
        },
        SValue::Object(pairs) => {
            proof {
                lemma_pairs_view(pairs@);
            }
            if pairs.len() == 0 {
                let none: Vec<SValue> = Vec::new();
                proof {
                    lemma_items_view(none@);
                    assert(items_view(none@) =~= Seq::empty());
                }
                Some(none)
            } else {
                None
            }
        },
        _ => None,
    }
}

/// Whether a verb ended as `expected` says: it was to turn to the host
/// and did, or it ended in the state and with the result that were
/// expected and left the host alone.
pub open spec fn verb_agrees(
    m: &Machine,
    world: &WorldStorage,
    quiet: bool,
    asked: bool,
    r: Result<SValue, ExecutionError>,
    expected: (State, Outcome),
) -> bool {
    (expected.1 is Host && asked) || (state_of(m, world) == expected.0 && quiet && (match r {
        Ok(v) => expected.1 == Outcome::Done(v@),
        Err(e) => expected.1 == Outcome::Fail(failure_of(e)),
    }))
}

/// Runs the verb `verb_name` on entity `entity_id`: the verb is looked up
/// along the prototype chain, the receiver is the entity that was asked
/// for, and the program runs in a scope of its own.
pub fn run_verb<H: Host>(
    m: &mut Machine,
    world: &mut WorldStorage,
    registry: &PluginRegistry,
    host: &mut Door<H>,
    entity_id: EntityId,
    verb_name: &str,
    args: Vec<SValue>,
    caller_id: Option<EntityId>,
    now_ms: i64,
    depth: u32,
) -> (r: Result<SValue, ExecutionError>)
    requires
        old(m).wf(),
        old(world).wf(),
        depth > 0,
    ensures
        advanced(old(m), final(m)),
        final(world).wf(),
        carried(old(world), old(host), final(world), final(host), registry),
        (crate::prototype::inherited_verb(old(world)@, entity_id as int, verb_name@) matches Some(v)
            ==> harmless(v.code)) ==> untouched(
            old(m),
            old(world),
            old(host),
            final(m),
            final(world),
            final(host),
            entity_id as int,
            registry.kinds(),
        ),
        verb_agrees(
            final(m),
            final(world),
            *final(host) == *old(host),
            final(host).asked(),
            r,
            verb_spec(
                state_of(old(m), old(world)),
                registry.names(),
                registry.kinds(),
                entity_id as int,
                verb_name@,
                items_view(args@),
                match caller_id {
                    Some(id) => Some(id as int),
                    None => None,
                },
                now_ms as int,
                depth as nat,
            ),
        ),
    decreases depth, 1int, 0int,
{
    proof {
        lemma_kept_same(mark(world, host), registry.kinds(), registry.params());
    }
    let code = match resolve_verb(world, entity_id, verb_name) {
        Some(verb) => verb.code.clone(),
        None => {
            return Err(
                ExecutionError::VerbNotFound { entity: entity_id, verb: verb_name.to_owned() },
            );
        },
    };
    let this = match resolve_entity(world, entity_id) {
        Some(this) => this,
        None => {
            return Err(ExecutionError::EntityNotFound(entity_id));
        },
    };
    let ctx = ExecutionContext { this, this_id: entity_id, caller_id, args, now_ms };
    let frame = m.push_frame(None);
    match eval(m, world, registry, host, &ctx, &code, frame, (depth - 1) as u32) {
        Ok(v) => Ok(v),
        Err(Signal::Throw(v)) => Err(ExecutionError::ScriptThrow(v)),
        Err(Signal::Break) => Err(
            ExecutionError::TypeError("std.break outside of a loop".to_owned()),
        ),
        Err(Signal::Continue) => Err(
            ExecutionError::TypeError("std.continue outside of a loop".to_owned()),
        ),
        Err(Signal::Fail(e)) => Err(e),
    }
}

} // verus!
