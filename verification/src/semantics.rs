//! What evaluation means.
//!
//! The functions of this file say, for a state and an expression, which
//! state and which outcome evaluation ends in. They follow a run as far as
//! values, scopes and the world decide it. Where a run turns to the host,
//! for arithmetic on doubles that are not safe integers or for a plugin,
//! the outcome is `Host`: what the host answers is not for the library to
//! say.

use crate::assoc::{lookup, with_entry};
use crate::builtins::{
    comparison_holds, exact_negation, is_truthy, joined, key_values, literal_value, slice_text,
};
use crate::entity::{EntityView, TaskView};
use crate::ir::SExprView;
use crate::machine::{binding_scope, visible, FrameView};
use crate::number::{exact_comparison, exact_number, Comparison, Number};
use crate::opcode::{opcode_of, Opcode};
use crate::opcodes::{entity_id_of, merged_props, resolved};
use crate::prototype::{inherited_capability, inherited_verb};
use crate::registry::slot_of;
use crate::scheduler::due_time;
use crate::storage::{entity_position, find_entity, WorldView};
use crate::value::{all_data, is_data, SValueView};
use vstd::prelude::*;

verus! {

/// A function value: the names of its parameters, its body, and the scope
/// in which it was made.
pub ghost struct ClosureView {
    pub params: Seq<Seq<char>>,
    pub body: SExprView,
    pub env: int,
}

/// What a run changes: the scopes, the functions, the steps that are left,
/// and the world.
pub ghost struct State {
    pub scopes: Seq<FrameView>,
    pub closures: Seq<ClosureView>,
    pub steps: nat,
    pub world: WorldView,
}

/// What a run is given and does not change: the receiver as scripts see
/// it, its id, the id of the caller, the arguments, the time of the call,
/// and the names and capability kinds of the registered plugin functions.
pub ghost struct Setting {
    pub this: SValueView,
    pub this_id: int,
    pub caller_id: Option<int>,
    pub args: Seq<SValueView>,
    pub now_ms: int,
    pub names: Seq<Seq<char>>,
    pub kinds: Seq<Seq<char>>,
}

/// Why a call failed, as far as the library decides it.
pub ghost enum Failure {
    VerbNotFound { entity: int, verb: Seq<char> },
    EntityNotFound(int),
    MissingCapability(Seq<char>),
    ScriptThrow(SValueView),
    UnknownOpcode(Seq<char>),
    TypeError,
    BudgetExceeded,
    IdsExhausted,
    /// A failure that comes from outside the library.
    Other,
}

/// How an evaluation ends.
pub ghost enum Outcome {
    Done(SValueView),
    Break,
    Continue,
    Throw(SValueView),
    Fail(Failure),
    /// The run turned to the host.
    Host,
}

/// How the evaluation of a list of expressions ends.
pub ghost enum Outcomes {
    Values(Seq<SValueView>),
    Stop(Outcome),
}

/// The state after one step.
pub open spec fn ticked(s: State) -> State {
    State { steps: (s.steps - 1) as nat, ..s }
}

/// The state with a new empty scope inside `parent`.
pub open spec fn with_frame(s: State, parent: Option<int>) -> State {
    State { scopes: s.scopes.push(FrameView { parent, vars: Seq::empty() }), ..s }
}

/// The state with `name` bound to `v` in scope `env` itself.
pub open spec fn declared(s: State, env: int, name: Seq<char>, v: SValueView) -> State {
    State {
        scopes: s.scopes.update(
            env,
            FrameView { vars: with_entry(s.scopes[env].vars, name, v), ..s.scopes[env] },
        ),
        ..s
    }
}

/// The argument at position `i`, null where there is none.
pub open spec fn arg(vals: Seq<SValueView>, i: int) -> SValueView {
    if 0 <= i < vals.len() {
        vals[i]
    } else {
        SValueView::Null
    }
}

/// Whether place `i` of a special form holds a name: a string literal.
pub open spec fn has_name(items: Seq<SExprView>, i: int) -> bool {
    0 <= i < items.len() && items[i] is String
}

/// Evaluates `e` in scope `env`: one step is taken, or the budget is
/// exceeded.
pub open spec fn eval_spec(s: State, cx: Setting, e: SExprView, env: int, depth: nat) -> (
    State,
    Outcome,
)
    decreases depth, 5int, 0int,
{
    if depth == 0 || s.steps == 0 {
        (s, Outcome::Fail(Failure::BudgetExceeded))
    } else {
        let s1 = ticked(s);
        match e {
            SExprView::Null => (s1, Outcome::Done(SValueView::Null)),
            SExprView::Bool(b) => (s1, Outcome::Done(SValueView::Bool(b))),
            SExprView::Number(bits) => (s1, Outcome::Done(literal_value(bits))),
            SExprView::String(text) => (s1, Outcome::Done(SValueView::String(text))),
            SExprView::Object(pairs) => object_spec(s1, cx, pairs, 0, Seq::empty(), env, depth),
            SExprView::List(items) => if items.len() == 0 {
                (s1, Outcome::Done(SValueView::Array(Seq::empty())))
            } else if items[0] is String {
                call_spec(s1, cx, items[0]->String_0, items, env, depth)
            } else {
                match items_spec(s1, cx, items, 0, Seq::empty(), env, depth) {
                    (s2, Outcomes::Values(vals)) => (s2, Outcome::Done(SValueView::Array(vals))),
                    (s2, Outcomes::Stop(o)) => (s2, o),
                }
            },
        }
    }
}

/// Evaluates the values of an object literal from pair `i` on, after
/// `acc`.
pub open spec fn object_spec(
    s: State,
    cx: Setting,
    pairs: Seq<(Seq<char>, SExprView)>,
    i: int,
    acc: Seq<(Seq<char>, SValueView)>,
    env: int,
    depth: nat,
) -> (State, Outcome)
    decreases depth, 2int, pairs.len() - i,
{
    if depth == 0 || i < 0 || i >= pairs.len() {
        (s, Outcome::Done(SValueView::Object(acc)))
    } else {
        match eval_spec(s, cx, pairs[i].1, env, (depth - 1) as nat) {
            (s1, Outcome::Done(v)) => object_spec(
                s1,
                cx,
                pairs,
                i + 1,
                with_entry(acc, pairs[i].0, v),
                env,
                depth,
            ),
            (s1, o) => (s1, o),
        }
    }
}

/// Evaluates `items[i..]` in order, after `acc`.
pub open spec fn items_spec(
    s: State,
    cx: Setting,
    items: Seq<SExprView>,
    i: int,
    acc: Seq<SValueView>,
    env: int,
    depth: nat,
) -> (State, Outcomes)
    decreases depth, 2int, items.len() - i,
{
    if depth == 0 || i < 0 || i >= items.len() {
        (s, Outcomes::Values(acc))
    } else {
        match eval_spec(s, cx, items[i], env, (depth - 1) as nat) {
            (s1, Outcome::Done(v)) => items_spec(s1, cx, items, i + 1, acc.push(v), env, depth),
            (s1, o) => (s1, Outcomes::Stop(o)),
        }
    }
}

/// Evaluates place `i` of a form, or gives null where the form has no
/// such place.
pub open spec fn place_spec(
    s: State,
    cx: Setting,
    items: Seq<SExprView>,
    i: int,
    env: int,
    depth: nat,
) -> (State, Outcome)
    decreases depth, 3int, 0int,
{
    if depth > 0 && 0 <= i < items.len() {
        eval_spec(s, cx, items[i], env, (depth - 1) as nat)
    } else {
        (s, Outcome::Done(SValueView::Null))
    }
}

/// Evaluates the call of `name` on `items[1..]`.
pub open spec fn call_spec(
    s: State,
    cx: Setting,
    name: Seq<char>,
    items: Seq<SExprView>,
    env: int,
    depth: nat,
) -> (State, Outcome)
    decreases depth, 4int, 0int,
{
    let type_error = (s, Outcome::Fail(Failure::TypeError));
    if depth == 0 {
        type_error
    } else {
        match opcode_of(name) {
            Some(Opcode::StdSeq) => seq_spec(s, cx, items, 1, SValueView::Null, env, depth),
            Some(Opcode::StdLet) => if !has_name(items, 1) {
                type_error
            } else {
                match place_spec(s, cx, items, 2, env, depth) {
                    (s1, Outcome::Done(v)) => (
                        declared(s1, env, items[1]->String_0, v),
                        Outcome::Done(v),
                    ),
                    (s1, o) => (s1, o),
                }
            },
            Some(Opcode::StdSet) => if !has_name(items, 1) {
                type_error
            } else {
                match place_spec(s, cx, items, 2, env, depth) {
                    (s1, Outcome::Done(v)) => match binding_scope(
                        s1.scopes,
                        env,
                        items[1]->String_0,
                    ) {
                        Some(scope) => (
                            declared(s1, scope, items[1]->String_0, v),
                            Outcome::Done(v),
                        ),
                        None => (s1, Outcome::Fail(Failure::TypeError)),
                    },
                    (s1, o) => (s1, o),
                }
            },
            Some(Opcode::StdVar) => if !has_name(items, 1) {
                type_error
            } else {
                match visible(s.scopes, env, items[1]->String_0) {
                    Some(v) => (s, Outcome::Done(v)),
                    None => (s, Outcome::Done(SValueView::Null)),
                }
            },
            Some(Opcode::StdIf) => if items.len() < 3 {
                type_error
            } else {
                match eval_spec(s, cx, items[1], env, (depth - 1) as nat) {
                    (s1, Outcome::Done(c)) => if is_truthy(c) {
                        eval_spec(s1, cx, items[2], env, (depth - 1) as nat)
                    } else {
                        place_spec(s1, cx, items, 3, env, depth)
                    },
                    (s1, o) => (s1, o),
                }
            },
            Some(Opcode::StdFor) => for_spec(s, cx, items, env, depth),
            Some(Opcode::StdWhile) => if items.len() < 3 {
                type_error
            } else {
                while_spec(s, cx, items[1], items[2], env, depth)
            },
            Some(Opcode::StdBreak) => (s, Outcome::Break),
            Some(Opcode::StdContinue) => (s, Outcome::Continue),
            Some(Opcode::StdTry) => try_spec(s, cx, items, env, depth),
            Some(Opcode::StdThrow) => match place_spec(s, cx, items, 1, env, depth) {
                (s1, Outcome::Done(v)) => (s1, Outcome::Throw(v)),
                (s1, o) => (s1, o),
            },
            Some(Opcode::StdFn) => if items.len() < 3 {
                type_error
            } else {
                match items[1] {
                    SExprView::List(names) => if forall|i: int|
                        0 <= i < names.len() ==> names[i] is String {
                        (
                            State {
                                closures: s.closures.push(
                                    ClosureView {
                                        params: Seq::new(names.len(), |i: int| names[i]->String_0),
                                        body: items[2],
                                        env,
                                    },
                                ),
                                ..s
                            },
                            Outcome::Done(SValueView::Function(s.closures.len() as usize)),
                        )
                    } else {
                        type_error
                    },
                    _ => type_error,
                }
            },
            Some(Opcode::BoolAnd) => if items.len() < 3 {
                type_error
            } else {
                match eval_spec(s, cx, items[1], env, (depth - 1) as nat) {
                    (s1, Outcome::Done(left)) => if is_truthy(left) {
                        eval_spec(s1, cx, items[2], env, (depth - 1) as nat)
                    } else {
                        (s1, Outcome::Done(left))
                    },
                    (s1, o) => (s1, o),
                }
            },
            Some(Opcode::BoolOr) => if items.len() < 3 {
                type_error
            } else {
                match eval_spec(s, cx, items[1], env, (depth - 1) as nat) {
                    (s1, Outcome::Done(left)) => if is_truthy(left) {
                        (s1, Outcome::Done(left))
                    } else {
                        eval_spec(s1, cx, items[2], env, (depth - 1) as nat)
                    },
                    (s1, o) => (s1, o),
                }
            },
            Some(Opcode::BoolGuard) => if items.len() < 3 {
                type_error
            } else {
                match eval_spec(s, cx, items[1], env, (depth - 1) as nat) {
                    (s1, Outcome::Done(v)) => if v is Null {
                        eval_spec(s1, cx, items[2], env, (depth - 1) as nat)
                    } else {
                        (s1, Outcome::Done(v))
                    },
                    (s1, o) => (s1, o),
                }
            },
            Some(Opcode::ObjNew) => obj_new_spec(s, cx, items, 1, Seq::empty(), env, depth),
            Some(op) => match items_spec(s, cx, items, 1, Seq::empty(), env, depth) {
                (s1, Outcomes::Values(vals)) => apply_spec(s1, cx, op, vals, depth),
                (s1, Outcomes::Stop(o)) => (s1, o),
            },
            None => match items_spec(s, cx, items, 1, Seq::empty(), env, depth) {
                (s1, Outcomes::Values(vals)) => match slot_of(cx.names, name) {
                    Some(slot) => (s1, host_effect_spec(s1.world, cx, slot, vals)),
                    None => match visible(s1.scopes, env, name) {
                        Some(SValueView::Function(f)) => closure_spec(s1, cx, f as int, vals, depth),
                        _ => (s1, Outcome::Fail(Failure::UnknownOpcode(name))),
                    },
                },
                (s1, Outcomes::Stop(o)) => (s1, o),
            },
        }
    }
}

/// A host effect: without a capability of the kind that the function
/// takes on the receiver's prototype chain, the call fails; a function
/// among the arguments is a type error; else the run turns to the host.
pub open spec fn host_effect_spec(world: WorldView, cx: Setting, slot: int, vals: Seq<SValueView>) -> Outcome {
    match inherited_capability(world, cx.this_id, cx.kinds[slot]) {
        None => Outcome::Fail(Failure::MissingCapability(cx.kinds[slot])),
        Some(_) => if all_data(vals) {
            Outcome::Host
        } else {
            Outcome::Fail(Failure::TypeError)
        },
    }
}

/// A host effect for which the receiver holds and inherits no capability
/// of the kind that the function takes fails for want of that capability,
/// and does not turn to the host.
pub proof fn lemma_no_capability_no_host(world: WorldView, cx: Setting, slot: int, vals: Seq<SValueView>)
    requires
        inherited_capability(world, cx.this_id, cx.kinds[slot]) is None,
    ensures
        host_effect_spec(world, cx, slot, vals) == Outcome::Fail(
            Failure::MissingCapability(cx.kinds[slot]),
        ),
{
}

/// `std.seq`: `items[i..]` in order; the value of the last, `last` where
/// there is none.
pub open spec fn seq_spec(
    s: State,
    cx: Setting,
    items: Seq<SExprView>,
    i: int,
    last: SValueView,
    env: int,
    depth: nat,
) -> (State, Outcome)
    decreases depth, 2int, items.len() - i,
{
    if depth == 0 || i < 0 || i >= items.len() {
        (s, Outcome::Done(last))
    } else {
        match eval_spec(s, cx, items[i], env, (depth - 1) as nat) {
            (s1, Outcome::Done(v)) => seq_spec(s1, cx, items, i + 1, v, env, depth),
            (s1, o) => (s1, o),
        }
    }
}

/// `std.for(var, iterable, body)`.
pub open spec fn for_spec(s: State, cx: Setting, items: Seq<SExprView>, env: int, depth: nat) -> (
    State,
    Outcome,
)
    decreases depth, 3int, 0int,
{
    if depth == 0 || !has_name(items, 1) || items.len() < 4 {
        (s, Outcome::Fail(Failure::TypeError))
    } else {
        match eval_spec(s, cx, items[2], env, (depth - 1) as nat) {
            (s1, Outcome::Done(SValueView::Array(list))) => for_loop_spec(
                s1,
                cx,
                items[1]->String_0,
                list,
                0,
                items[3],
                env,
                depth,
            ),
            (s1, Outcome::Done(_)) => (s1, Outcome::Fail(Failure::TypeError)),
            (s1, o) => (s1, o),
        }
    }
}

/// The iterations of a `std.for` from item `i` on: the body in a new
/// scope that binds `var` to the item. `std.break` ends the loop,
/// `std.continue` the iteration.
pub open spec fn for_loop_spec(
    s: State,
    cx: Setting,
    var: Seq<char>,
    list: Seq<SValueView>,
    i: int,
    body: SExprView,
    env: int,
    depth: nat,
) -> (State, Outcome)
    decreases depth, 2int, list.len() - i,
{
    if depth == 0 || i < 0 || i >= list.len() {
        (s, Outcome::Done(SValueView::Null))
    } else {
        let frame = s.scopes.len() as int;
        let s1 = declared(with_frame(s, Some(env)), frame, var, list[i]);
        match eval_spec(s1, cx, body, frame, (depth - 1) as nat) {
            (s2, Outcome::Done(_)) => for_loop_spec(s2, cx, var, list, i + 1, body, env, depth),
            (s2, Outcome::Continue) => for_loop_spec(s2, cx, var, list, i + 1, body, env, depth),
            (s2, Outcome::Break) => (s2, Outcome::Done(SValueView::Null)),
            (s2, o) => (s2, o),
        }
    }
}

/// `std.while(cond, body)`: each iteration takes a step, tests the
/// condition, and runs the body in a new scope. An iteration always leaves
/// fewer steps than it found; that this is tested is what lets the
/// definition end.
pub open spec fn while_spec(
    s: State,
    cx: Setting,
    cond: SExprView,
    body: SExprView,
    env: int,
    depth: nat,
) -> (State, Outcome)
    decreases depth, 2int, s.steps,
{
    if depth == 0 || s.steps == 0 {
        (s, Outcome::Fail(Failure::BudgetExceeded))
    } else {
        match eval_spec(ticked(s), cx, cond, env, (depth - 1) as nat) {
            (s1, Outcome::Done(c)) => if !is_truthy(c) {
                (s1, Outcome::Done(SValueView::Null))
            } else {
                let frame = s1.scopes.len() as int;
                match eval_spec(with_frame(s1, Some(env)), cx, body, frame, (depth - 1) as nat) {
                    (s2, Outcome::Break) => (s2, Outcome::Done(SValueView::Null)),
                    (s2, Outcome::Done(_)) => if s2.steps < s.steps {
                        while_spec(s2, cx, cond, body, env, depth)
                    } else {
                        (s2, Outcome::Fail(Failure::BudgetExceeded))
                    },
                    (s2, Outcome::Continue) => if s2.steps < s.steps {
                        while_spec(s2, cx, cond, body, env, depth)
                    } else {
                        (s2, Outcome::Fail(Failure::BudgetExceeded))
                    },
                    (s2, o) => (s2, o),
                }
            },
            (s1, o) => (s1, o),
        }
    }
}

/// `std.try(body, errName, handler)`: the body; if a value is thrown in
/// it, here or in a verb that it calls, the handler in a new scope that
/// binds `errName` to the value.
pub open spec fn try_spec(s: State, cx: Setting, items: Seq<SExprView>, env: int, depth: nat) -> (
    State,
    Outcome,
)
    decreases depth, 3int, 0int,
{
    if depth == 0 || items.len() < 4 || !has_name(items, 2) {
        (s, Outcome::Fail(Failure::TypeError))
    } else {
        let (s1, o) = eval_spec(s, cx, items[1], env, (depth - 1) as nat);
        let thrown = match o {
            Outcome::Throw(v) => Some(v),
            Outcome::Fail(Failure::ScriptThrow(v)) => Some(v),
            _ => None,
        };
        match thrown {
            Some(v) => {
                let frame = s1.scopes.len() as int;
                eval_spec(
                    declared(with_frame(s1, Some(env)), frame, items[2]->String_0, v),
                    cx,
                    items[3],
                    frame,
                    (depth - 1) as nat,
                )
            },
            None => (s1, o),
        }
    }
}

/// `obj.new` from place `i` on, after `acc`: a two-item list of a key and
/// an expression is a pair, and so is a key followed by an expression.
pub open spec fn obj_new_spec(
    s: State,
    cx: Setting,
    items: Seq<SExprView>,
    i: int,
    acc: Seq<(Seq<char>, SValueView)>,
    env: int,
    depth: nat,
) -> (State, Outcome)
    decreases depth, 2int, items.len() - i,
{
    let type_error = (s, Outcome::Fail(Failure::TypeError));
    if depth == 0 || i < 0 || i >= items.len() {
        (s, Outcome::Done(SValueView::Object(acc)))
    } else {
        match items[i] {
            SExprView::List(pair) => if pair.len() != 2 || !(pair[0] is String) {
                type_error
            } else {
                match eval_spec(s, cx, pair[1], env, (depth - 1) as nat) {
                    (s1, Outcome::Done(v)) => obj_new_spec(
                        s1,
                        cx,
                        items,
                        i + 1,
                        with_entry(acc, pair[0]->String_0, v),
                        env,
                        depth,
                    ),
                    (s1, o) => (s1, o),
                }
            },
            SExprView::String(key) => if i + 1 >= items.len() {
                type_error
            } else {
                match eval_spec(s, cx, items[i + 1], env, (depth - 1) as nat) {
                    (s1, Outcome::Done(v)) => obj_new_spec(
                        s1,
                        cx,
                        items,
                        i + 2,
                        with_entry(acc, key, v),
                        env,
                        depth,
                    ),
                    (s1, o) => (s1, o),
                }
            },
            _ => type_error,
        }
    }
}

/// The outcome of a computation on numbers: exact, or the host's.
pub open spec fn number_outcome(exact: Option<Number>) -> Outcome {
    match exact {
        Some(n) => Outcome::Done(SValueView::Number(n)),
        None => Outcome::Host,
    }
}

/// Whether two values are equal, as far as the library decides it:
/// numbers as numbers, other values where they are the same value.
pub open spec fn equality(a: SValueView, b: SValueView) -> Option<bool> {
    match (a, b) {
        (SValueView::Number(x), SValueView::Number(y)) => match exact_comparison(x, y) {
            Some(c) => Some(c == Comparison::Equal),
            None => None,
        },
        _ => Some(a == b),
    }
}

/// The outcome of a test.
pub open spec fn truth_outcome(truth: Option<bool>, negate: bool) -> Outcome {
    match truth {
        Some(t) => Outcome::Done(SValueView::Bool(t != negate)),
        None => Outcome::Host,
    }
}

/// The outcome of an opcode that computes on values alone.
pub open spec fn pure_outcome(cx: Setting, op: Opcode, vals: Seq<SValueView>) -> Outcome {
    let a = arg(vals, 0);
    let b = arg(vals, 1);
    let c = arg(vals, 2);
    let type_error = Outcome::Fail(Failure::TypeError);
    match op {
        Opcode::StdCaller => Outcome::Done(
            match cx.caller_id {
                Some(id) => SValueView::Number(Number::Int(id as i64)),
                None => SValueView::Null,
            },
        ),
        Opcode::StdThis => Outcome::Done(cx.this),
        Opcode::TimeNow => Outcome::Done(SValueView::Number(Number::Int(cx.now_ms as i64))),
        Opcode::StdArgs => Outcome::Done(SValueView::Array(cx.args)),
        Opcode::StdArg => match entity_id_of(a) {
            Some(i) => Outcome::Done(arg(cx.args, i as int)),
            None => type_error,
        },
        Opcode::Math(math) => match (a, b) {
            (SValueView::Number(x), SValueView::Number(y)) => number_outcome(
                exact_number(math, x, y),
            ),
            _ => type_error,
        },
        Opcode::MathNeg => match a {
            SValueView::Number(x) => number_outcome(exact_negation(x)),
            _ => type_error,
        },
        Opcode::BoolEq => truth_outcome(equality(a, b), false),
        Opcode::BoolNeq => truth_outcome(equality(a, b), true),
        Opcode::Compare(compare) => match (a, b) {
            (SValueView::Number(x), SValueView::Number(y)) => match exact_comparison(x, y) {
                Some(c) => Outcome::Done(SValueView::Bool(comparison_holds(compare, c))),
                None => Outcome::Host,
            },
            _ => type_error,
        },
        Opcode::BoolNot => Outcome::Done(SValueView::Bool(!is_truthy(a))),
        Opcode::StrConcat => match joined(vals) {
            Some(text) => Outcome::Done(SValueView::String(text)),
            None => type_error,
        },
        Opcode::StrLen => match a {
            SValueView::String(text) => Outcome::Done(
                SValueView::Number(Number::Int(text.len() as i64)),
            ),
            _ => type_error,
        },
        Opcode::StrSlice => match (a, entity_id_of(b)) {
            (SValueView::String(text), Some(from)) => if c is Null {
                Outcome::Done(
                    SValueView::String(slice_text(text, from as int, text.len() as int)),
                )
            } else {
                match entity_id_of(c) {
                    Some(to) => Outcome::Done(
                        SValueView::String(slice_text(text, from as int, to as int)),
                    ),
                    None => type_error,
                }
            },
            _ => type_error,
        },
        Opcode::ListNew => Outcome::Done(SValueView::Array(vals)),
        Opcode::ListGet => match (a, entity_id_of(b)) {
            (SValueView::Array(items), Some(i)) => Outcome::Done(arg(items, i as int)),
            _ => type_error,
        },
        Opcode::ListLen => match a {
            SValueView::Array(items) => Outcome::Done(
                SValueView::Number(Number::Int(items.len() as i64)),
            ),
            _ => type_error,
        },
        Opcode::ObjGet => match (a, b) {
            (SValueView::Object(pairs), SValueView::String(key)) => Outcome::Done(
                match lookup(pairs, key) {
                    Some(v) => v,
                    None => SValueView::Null,
                },
            ),
            _ => type_error,
        },
        Opcode::ObjSet => match (a, b) {
            (SValueView::Object(pairs), SValueView::String(key)) => Outcome::Done(
                SValueView::Object(with_entry(pairs, key, c)),
            ),
            _ => type_error,
        },
        Opcode::ObjKeys => match a {
            SValueView::Object(pairs) => Outcome::Done(SValueView::Array(key_values(pairs))),
            _ => type_error,
        },
        _ => type_error,
    }
}

/// `entity(id)`.
pub open spec fn entity_outcome(world: WorldView, a: SValueView) -> Outcome {
    match entity_id_of(a) {
        Some(id) => match find_entity(world.entities, id as int) {
            Some(e) => Outcome::Done(resolved(world, e)),
            None => Outcome::Fail(Failure::EntityNotFound(id as int)),
        },
        None => Outcome::Fail(Failure::TypeError),
    }
}

/// `create(props, prototype_id?)`: the world with the new entity and the
/// entity's id, or why none was created.
pub open spec fn create_spec(s: State, props: SValueView, prototype: SValueView) -> (State, Outcome) {
    let prototype_id: Option<int> = match entity_id_of(prototype) {
        Some(p) => Some(p as int),
        None => None,
    };
    if !(prototype is Null) && prototype_id is None {
        (s, Outcome::Fail(Failure::TypeError))
    } else if !is_data(props) {
        (s, Outcome::Fail(Failure::TypeError))
    } else if !(prototype is Null) && !s.world.contains(prototype_id->0) {
        (s, Outcome::Fail(Failure::EntityNotFound(prototype_id->0)))
    } else if s.world.next_entity_id >= i64::MAX {
        (s, Outcome::Fail(Failure::IdsExhausted))
    } else {
        (
            State {
                world: WorldView {
                    entities: s.world.entities.push(
                        EntityView {
                            id: s.world.next_entity_id,
                            prototype_id: if prototype is Null {
                                None
                            } else {
                                prototype_id
                            },
                            props,
                        },
                    ),
                    next_entity_id: s.world.next_entity_id + 1,
                    ..s.world
                },
                ..s
            },
            Outcome::Done(SValueView::Number(Number::Int(s.world.next_entity_id as i64))),
        )
    }
}

/// `update(id, patch)`: the world with the patch merged into the
/// entity's properties, or why nothing was changed.
pub open spec fn update_spec(s: State, id: SValueView, patch: SValueView) -> (State, Outcome) {
    match entity_id_of(id) {
        None => (s, Outcome::Fail(Failure::TypeError)),
        Some(id) => if !(patch is Object) || !is_data(patch) {
            (s, Outcome::Fail(Failure::TypeError))
        } else {
            match find_entity(s.world.entities, id as int) {
                None => (s, Outcome::Fail(Failure::EntityNotFound(id as int))),
                Some(before) => (
                    State {
                        world: WorldView {
                            entities: s.world.entities.update(
                                entity_position(s.world.entities, id as int),
                                EntityView { props: merged_props(before.props, patch), ..before },
                            ),
                            ..s.world
                        },
                        ..s
                    },
                    Outcome::Done(SValueView::Null),
                ),
            }
        },
    }
}

/// `schedule(verb, args, delay_ms)`: the world with the call of `verb` on
/// the receiver scheduled for the time `delay_ms` after the time of the
/// call, and the task's id; or why nothing was scheduled.
pub open spec fn schedule_spec(
    s: State,
    cx: Setting,
    verb: SValueView,
    args: SValueView,
    delay: SValueView,
) -> (State, Outcome) {
    match (verb, passed_args(args), entity_id_of(delay)) {
        (SValueView::String(name), Some(passed), Some(delay_ms)) => if !all_data(passed) {
            (s, Outcome::Fail(Failure::TypeError))
        } else if s.world.next_task_id >= i64::MAX {
            (s, Outcome::Fail(Failure::IdsExhausted))
        } else {
            (
                State {
                    world: WorldView {
                        tasks: s.world.tasks.push(
                            TaskView {
                                id: s.world.next_task_id,
                                entity_id: cx.this_id,
                                verb: name,
                                args: SValueView::Array(passed),
                                execute_at_ms: due_time(cx.now_ms, delay_ms as int),
                            },
                        ),
                        next_task_id: s.world.next_task_id + 1,
                        ..s.world
                    },
                    ..s
                },
                Outcome::Done(SValueView::Number(Number::Int(s.world.next_task_id as i64))),
            )
        },
        _ => (s, Outcome::Fail(Failure::TypeError)),
    }
}

/// Applies an opcode that takes its arguments evaluated.
pub open spec fn apply_spec(s: State, cx: Setting, op: Opcode, vals: Seq<SValueView>, depth: nat) -> (
    State,
    Outcome,
)
    decreases depth, 3int, 0int,
{
    match op {
        Opcode::ListMap => map_spec(s, cx, arg(vals, 0), arg(vals, 1), false, depth),
        Opcode::ListFilter => map_spec(s, cx, arg(vals, 0), arg(vals, 1), true, depth),
        Opcode::Entity => (s, entity_outcome(s.world, arg(vals, 0))),
        Opcode::Create => create_spec(s, arg(vals, 0), arg(vals, 1)),
        Opcode::Update => update_spec(s, arg(vals, 0), arg(vals, 1)),
        Opcode::Call => call_verb_spec(s, cx, arg(vals, 0), arg(vals, 1), arg(vals, 2), depth),
        Opcode::Schedule => schedule_spec(s, cx, arg(vals, 0), arg(vals, 1), arg(vals, 2)),
        _ => (s, pure_outcome(cx, op, vals)),
    }
}

/// `list.map(list, f)` and `list.filter(list, f)`.
pub open spec fn map_spec(
    s: State,
    cx: Setting,
    list: SValueView,
    function: SValueView,
    filter: bool,
    depth: nat,
) -> (State, Outcome)
    decreases depth, 2int, 1int,
{
    match (list, function) {
        (SValueView::Array(items), SValueView::Function(f)) => map_loop_spec(
            s,
            cx,
            items,
            0,
            f as int,
            filter,
            Seq::empty(),
            depth,
        ),
        _ => (s, Outcome::Fail(Failure::TypeError)),
    }
}

/// The calls of a `list.map` or `list.filter` from item `i` on, after
/// `acc`.
pub open spec fn map_loop_spec(
    s: State,
    cx: Setting,
    items: Seq<SValueView>,
    i: int,
    f: int,
    filter: bool,
    acc: Seq<SValueView>,
    depth: nat,
) -> (State, Outcome)
    decreases depth, 2int, 0int, items.len() - i,
{
    if i < 0 || i >= items.len() {
        (s, Outcome::Done(SValueView::Array(acc)))
    } else {
        match closure_spec(s, cx, f, seq![items[i]], depth) {
            (s1, Outcome::Done(v)) => map_loop_spec(
                s1,
                cx,
                items,
                i + 1,
                f,
                filter,
                if !filter {
                    acc.push(v)
                } else if is_truthy(v) {
                    acc.push(items[i])
                } else {
                    acc
                },
                depth,
            ),
            (s1, o) => (s1, o),
        }
    }
}

/// The scopes with the parameters from position `i` on bound in `frame`
/// to their arguments, null where there is none.
pub open spec fn bound(
    scopes: Seq<FrameView>,
    frame: int,
    params: Seq<Seq<char>>,
    args: Seq<SValueView>,
    i: int,
) -> Seq<FrameView>
    decreases params.len() - i,
{
    if i < 0 || i >= params.len() {
        scopes
    } else {
        bound(
            scopes.update(
                frame,
                FrameView {
                    vars: with_entry(scopes[frame].vars, params[i], arg(args, i)),
                    ..scopes[frame]
                },
            ),
            frame,
            params,
            args,
            i + 1,
        )
    }
}

/// Calls the function number `f` on `args`: the body in a new scope
/// inside the scope in which the function was made.
pub open spec fn closure_spec(s: State, cx: Setting, f: int, args: Seq<SValueView>, depth: nat) -> (
    State,
    Outcome,
)
    decreases depth, 1int, 0int,
{
    if depth == 0 || f < 0 || f >= s.closures.len() {
        (s, Outcome::Fail(Failure::TypeError))
    } else {
        let closure = s.closures[f];
        let frame = s.scopes.len() as int;
        let s1 = with_frame(s, Some(closure.env));
        let s2 = State { scopes: bound(s1.scopes, frame, closure.params, args, 0), ..s1 };
        match eval_spec(s2, cx, closure.body, frame, (depth - 1) as nat) {
            (s3, Outcome::Break) => (s3, Outcome::Fail(Failure::TypeError)),
            (s3, Outcome::Continue) => (s3, Outcome::Fail(Failure::TypeError)),
            (s3, o) => (s3, o),
        }
    }
}

/// The id of the entity that `call` is aimed at.
pub open spec fn target_of(target: SValueView) -> Option<i64> {
    match target {
        SValueView::Object(_) => match target.field("id"@) {
            Some(id) => entity_id_of(id),
            None => None,
        },
        _ => entity_id_of(target),
    }
}

/// The arguments that `call` passes on.
pub open spec fn passed_args(args: SValueView) -> Option<Seq<SValueView>> {
    match args {
        SValueView::Array(items) => Some(items),
        SValueView::Null => Some(Seq::empty()),
        SValueView::Object(pairs) => if pairs.len() == 0 {
            Some(Seq::empty())
        } else {
            None
        },
        _ => None,
    }
}

/// `call(target, verb, args)`.
pub open spec fn call_verb_spec(
    s: State,
    cx: Setting,
    target: SValueView,
    verb: SValueView,
    args: SValueView,
    depth: nat,
) -> (State, Outcome)
    decreases depth, 2int, 0int,
{
    match (target_of(target), verb, passed_args(args)) {
        (Some(id), SValueView::String(name), Some(passed)) => verb_spec(
            s,
            cx.names,
            cx.kinds,
            id as int,
            name,
            passed,
            Some(cx.this_id),
            cx.now_ms,
            depth,
        ),
        _ => (s, Outcome::Fail(Failure::TypeError)),
    }
}

/// Runs the verb `verb_name` on entity `entity_id`: the verb of the
/// entity or of its nearest prototype that has one, with the entity as
/// receiver, in a scope of its own. A thrown value that nothing caught is
/// a script-level failure; a jump that found no loop is a type error.
pub open spec fn verb_spec(
    s: State,
    names: Seq<Seq<char>>,
    kinds: Seq<Seq<char>>,
    entity_id: int,
    verb_name: Seq<char>,
    args: Seq<SValueView>,
    caller_id: Option<int>,
    now_ms: int,
    depth: nat,
) -> (State, Outcome)
    decreases depth, 1int, 0int,
{
    if depth == 0 {
        (s, Outcome::Fail(Failure::BudgetExceeded))
    } else {
        match inherited_verb(s.world, entity_id, verb_name) {
            None => (s, Outcome::Fail(Failure::VerbNotFound { entity: entity_id, verb: verb_name })),
            Some(verb) => match find_entity(s.world.entities, entity_id) {
                None => (s, Outcome::Fail(Failure::EntityNotFound(entity_id))),
                Some(entity) => {
                    let cx = Setting {
                        this: resolved(s.world, entity),
                        this_id: entity_id,
                        caller_id,
                        args,
                        now_ms,
                        names,
                        kinds,
                    };
                    let frame = s.scopes.len() as int;
                    match eval_spec(
                        with_frame(s, None),
                        cx,
                        verb.code,
                        frame,
                        (depth - 1) as nat,
                    ) {
                        (s1, Outcome::Throw(v)) => (s1, Outcome::Fail(Failure::ScriptThrow(v))),
                        (s1, Outcome::Break) => (s1, Outcome::Fail(Failure::TypeError)),
                        (s1, Outcome::Continue) => (s1, Outcome::Fail(Failure::TypeError)),
                        (s1, o) => (s1, o),
                    }
                },
            },
        }
    }
}

/// Whether the opcode `name` changes the world or runs a verb: `create`,
/// `update`, `schedule` and `call`.
pub open spec fn writes(name: Seq<char>) -> bool {
    opcode_of(name) matches Some(op) && (op is Create || op is Update || op is Schedule
        || op is Call)
}

/// Whether an expression holds no call of an opcode that `writes`,
/// however deep.
pub open spec fn harmless(e: SExprView) -> bool
    decreases e, 0int,
{
    match e {
        SExprView::Object(pairs) => harmless_fields(pairs),
        SExprView::List(items) => harmless_items(items) && !(items.len() > 0
            && items[0] is String && writes(items[0]->String_0)),
        _ => true,
    }
}

/// Whether each expression of a list is `harmless`.
pub open spec fn harmless_items(items: Seq<SExprView>) -> bool
    decreases items, 1int,
{
    items.len() == 0 || (harmless_items(items.drop_last()) && harmless(items.last()))
}

/// Whether the value of each pair is `harmless`.
pub open spec fn harmless_fields(pairs: Seq<(Seq<char>, SExprView)>) -> bool
    decreases pairs, 1int,
{
    pairs.len() == 0 || (harmless_fields(pairs.drop_last()) && harmless(pairs.last().1))
}

/// A list is harmless where each of its expressions is.
pub proof fn lemma_harmless_items(items: Seq<SExprView>)
    ensures
        harmless_items(items) <==> forall|i: int| 0 <= i < items.len() ==> harmless(#[trigger] items[i]),
    decreases items.len(),
{
    if items.len() > 0 {
        let rest = items.drop_last();
        lemma_harmless_items(rest);
        if harmless_items(items) {
            assert forall|i: int| 0 <= i < items.len() implies harmless(#[trigger] items[i]) by {
                if i < rest.len() {
                    assert(rest[i] == items[i]);
                }
            }
        }
        if forall|i: int| 0 <= i < items.len() ==> harmless(#[trigger] items[i]) {
            assert forall|i: int| 0 <= i < rest.len() implies harmless(#[trigger] rest[i]) by {
                assert(rest[i] == items[i]);
            }
            assert(harmless(items.last()));
        }
    }
}

/// The pairs of an object are harmless where the value of each is.
pub proof fn lemma_harmless_fields(pairs: Seq<(Seq<char>, SExprView)>)
    ensures
        harmless_fields(pairs) <==> forall|i: int|
            0 <= i < pairs.len() ==> harmless((#[trigger] pairs[i]).1),
    decreases pairs.len(),
{
    if pairs.len() > 0 {
        let rest = pairs.drop_last();
        lemma_harmless_fields(rest);
        if harmless_fields(pairs) {
            assert forall|i: int| 0 <= i < pairs.len() implies harmless((#[trigger] pairs[i]).1) by {
                if i < rest.len() {
                    assert(rest[i] == pairs[i]);
                }
            }
        }
        if forall|i: int| 0 <= i < pairs.len() ==> harmless((#[trigger] pairs[i]).1) {
            assert forall|i: int| 0 <= i < rest.len() implies harmless((#[trigger] rest[i]).1) by {
                assert(rest[i] == pairs[i]);
            }
            assert(harmless(pairs.last().1));
        }
    }
}

/// Whether the body of each function is `harmless`.
pub open spec fn all_harmless(functions: Seq<ClosureView>) -> bool {
    forall|k: int| 0 <= k < functions.len() ==> harmless((#[trigger] functions[k]).body)
}

} // verus!
