//! The runtime: a world, the plugins that it knows and a scheduler, and the
//! entry point that runs a verb.

use crate::entity::EntityId;
use crate::error::ExecutionError;
use crate::eval::{
    carried, powerless, eval, failure_of, outcome_of, run_verb, setting_of, Door, ExactHost, ExecutionContext,
    Host, Signal, MAX_DEPTH,
};
use crate::ir::SExpr;
use crate::machine::{FrameView, Machine};
use crate::prototype::inherited_verb;
use crate::registry::{init_registry, PluginRegistry};
use crate::scheduler::Scheduler;
use crate::semantics::{eval_spec, harmless, verb_spec, Failure, Outcome, Setting, State};
use crate::storage::{WorldStorage, WorldView};
use crate::value::{is_data, items_view, SValue, SValueView};
use vstd::prelude::*;

verus! {

/// The steps that a call may take unless it is told otherwise.
pub const DEFAULT_BUDGET: u64 = 1_000_000;

/// The state in which a call starts: one empty scope, no functions,
/// `budget` steps to take, and the world as it is.
pub open spec fn start_state(budget: u64, world: WorldView) -> State {
    State {
        scopes: seq![FrameView { parent: None, vars: Seq::empty() }],
        closures: Seq::empty(),
        steps: budget as nat,
        world,
    }
}

/// What the outcome of an evaluation amounts to for the caller of a verb:
/// a value, which must be plain data, or a failure. A thrown value that
/// nothing caught is a script-level failure; a jump that found no loop is a
/// type error.
pub open spec fn concluded(o: Outcome) -> Outcome {
    match o {
        Outcome::Done(v) => if is_data(v) {
            o
        } else {
            Outcome::Fail(Failure::TypeError)
        },
        Outcome::Throw(v) => Outcome::Fail(Failure::ScriptThrow(v)),
        Outcome::Break => Outcome::Fail(Failure::TypeError),
        Outcome::Continue => Outcome::Fail(Failure::TypeError),
        _ => o,
    }
}

/// The outcome that a result stands for.
pub open spec fn result_outcome(r: Result<SValue, ExecutionError>) -> Outcome {
    match r {
        Ok(v) => Outcome::Done(v@),
        Err(e) => Outcome::Fail(failure_of(e)),
    }
}

/// What a finished evaluation amounts to for the caller of a verb.
pub fn conclude(outcome: Result<SValue, Signal>) -> (r: Result<SValue, ExecutionError>)
    ensures
        result_outcome(r) == concluded(outcome_of(outcome)),
        r matches Ok(v) ==> is_data(v@),
{
    match outcome {
        Ok(v) => if v.is_data() {
            Ok(v)
        } else {
            Err(ExecutionError::TypeError("the result is a function".to_owned()))
        },
        Err(Signal::Throw(v)) => Err(ExecutionError::ScriptThrow(v)),
        Err(Signal::Break) => Err(
            ExecutionError::TypeError("std.break outside of a loop".to_owned()),
        ),
        Err(Signal::Continue) => Err(
            ExecutionError::TypeError("std.continue outside of a loop".to_owned()),
        ),
        Err(Signal::Fail(e)) => Err(e),
    }
}

impl ExecutionContext {
    /// Evaluates `expr` for this receiver, caller and arguments, within
    /// `budget` steps. Either the run turns to the host, or the world and
    /// the result are what the semantics of evaluation say and the host is
    /// left alone. In every run the world only grows, and a plugin is
    /// invoked only with a request that rests on a capability; an
    /// expression that holds no `create`, `update`, `schedule` or `call`
    /// leaves the world as it was, whatever the host answers.
    pub fn execute<H: Host>(
        &self,
        world: &mut WorldStorage,
        registry: &PluginRegistry,
        host: &mut Door<H>,
        expr: &SExpr,
        budget: u64,
    ) -> (r: Result<SValue, ExecutionError>)
        requires
            old(world).wf(),
        ensures
            final(world).wf(),
            carried(old(world), old(host), final(world), final(host), registry),
            harmless(expr@) ==> final(world)@ == old(world)@,
            harmless(expr@) && powerless(old(world)@, self.this_id as int, registry.kinds())
                ==> final(host).invoked() == old(host).invoked(),
            r matches Ok(v) ==> is_data(v@),
            ({
                let (end, o) = eval_spec(
                    start_state(budget, old(world)@),
                    setting_of(self, registry),
                    expr@,
                    0,
                    MAX_DEPTH as nat,
                );
                (o is Host && final(host).asked()) || (final(world)@ == end.world && result_outcome(r)
                    == concluded(o) && *final(host) == *old(host))
            }),
    {
        let mut m = Machine::new(budget);
        conclude(eval(&mut m, world, registry, host, self, expr, 0, MAX_DEPTH))
    }
}

/// The setting of an expression that is evaluated on its own: no
/// receiver, no caller, no arguments, no plugins.
pub open spec fn bare_setting() -> Setting {
    Setting {
        this: SValueView::Null,
        this_id: 0,
        caller_id: None,
        args: Seq::empty(),
        now_ms: 0,
        names: Seq::empty(),
        kinds: Seq::empty(),
    }
}

/// What evaluating `expr` on its own within `budget` steps ends in.
pub open spec fn bare_outcome(expr: crate::ir::SExprView, budget: u64) -> Outcome {
    concluded(
        eval_spec(start_state(budget, WorldView::empty()), bare_setting(), expr, 0, MAX_DEPTH as nat).1,
    )
}

/// What evaluating `expr` on its own within `budget` steps gives: an
/// error where the evaluation would need a host, else what the semantics
/// of evaluation say.
pub open spec fn bare_result(
    expr: crate::ir::SExprView,
    budget: u64,
    r: Result<SValue, ExecutionError>,
) -> bool {
    if eval_spec(start_state(budget, WorldView::empty()), bare_setting(), expr, 0, MAX_DEPTH as nat).1 is Host {
        r matches Err(ExecutionError::HostRequired)
    } else {
        result_outcome(r) == bare_outcome(expr, budget)
    }
}

/// Evaluates `expr` on its own: in an empty world, for no receiver, with
/// no plugins, and exactly or not at all.
pub fn execute(expr: &SExpr) -> (r: Result<SValue, ExecutionError>)
    ensures
        r matches Ok(v) ==> is_data(v@),
        bare_result(expr@, DEFAULT_BUDGET, r),
{
    Runtime::new().execute(expr)
}

/// Evaluates expressions on their own.
pub struct Runtime {
    pub budget: u64,
}

impl Runtime {
    /// A runtime with the default budget.
    pub fn new() -> (r: Runtime)
        ensures
            r.budget == DEFAULT_BUDGET,
    {
        Runtime { budget: DEFAULT_BUDGET }
    }

    /// Evaluates `expr` in an empty world, for no receiver, with no
    /// plugins, and exactly or not at all: where the evaluation needs
    /// arithmetic on doubles, the result is the error `HostRequired`.
    pub fn execute(&self, expr: &SExpr) -> (r: Result<SValue, ExecutionError>)
        ensures
            r matches Ok(v) ==> is_data(v@),
            bare_result(expr@, self.budget, r),
    {
        let mut world = match WorldStorage::in_memory() {
            Ok(world) => world,
            Err(e) => {
                return Err(ExecutionError::Storage(e));
            },
        };
        let registry = init_registry();
        let mut host = Door::new(ExactHost {  });
        let ctx = ExecutionContext {
            this: SValue::Null,
            this_id: 0,
            caller_id: None,
            args: Vec::new(),
            now_ms: 0,
        };
        proof {
            crate::value::lemma_items_view(ctx.args@);
            assert(items_view(ctx.args@) =~= Seq::empty());
            assert(setting_of(&ctx, &registry) == bare_setting());
        }
        let r = ctx.execute(&mut world, &registry, &mut host, expr, self.budget);
        if host.was_asked() {
            Err(ExecutionError::HostRequired)
        } else {
            r
        }
    }
}

/// A world with the plugins that it knows and its scheduler. `now_ms` is
/// the time that verbs are told; whoever drives the runtime sets it.
pub struct ViwoRuntime {
    pub storage: WorldStorage,
    pub registry: PluginRegistry,
    pub scheduler: Scheduler,
    pub budget: u64,
    pub now_ms: i64,
}

impl ViwoRuntime {
    /// A runtime on the world `storage`, with no plugins and the default
    /// budget.
    pub fn new(storage: WorldStorage) -> (r: ViwoRuntime)
        ensures
            r.storage == storage,
            r.budget == DEFAULT_BUDGET,
            r.now_ms == 0,
            r.registry.names().len() == 0,
    {
        ViwoRuntime {
            storage,
            registry: init_registry(),
            scheduler: Scheduler::new(),
            budget: DEFAULT_BUDGET,
            now_ms: 0,
        }
    }

    /// The world.
    pub fn storage(&self) -> (r: &WorldStorage)
        ensures
            *r == self.storage,
    {
        &self.storage
    }

    /// The scheduler.
    pub fn scheduler(&self) -> (r: &Scheduler)
        ensures
            *r == self.scheduler,
    {
        &self.scheduler
    }

    /// Runs the verb `verb_name` on the entity `entity_id` with `args`,
    /// for the caller `caller_id`. The verb is the entity's own or that of
    /// its nearest prototype that has one; the receiver is the entity
    /// itself. Either the run turns to the host, or the world and the
    /// result are what the semantics of evaluation say and the host is
    /// left alone. In every run the world only grows, and a plugin is
    /// invoked only with a request that rests on a capability; a verb
    /// whose program holds no `create`, `update`, `schedule` or `call`
    /// leaves the world as it was, whatever the host answers. The result
    /// is plain data.
    pub fn execute_verb<H: Host>(
        &mut self,
        host: &mut Door<H>,
        entity_id: EntityId,
        verb_name: &str,
        args: Vec<SValue>,
        caller_id: Option<EntityId>,
    ) -> (r: Result<SValue, ExecutionError>)
        requires
            old(self).storage.wf(),
        ensures
            final(self).storage.wf(),
            final(self).budget == old(self).budget,
            final(self).now_ms == old(self).now_ms,
            final(self).registry == old(self).registry,
            carried(
                &old(self).storage,
                old(host),
                &final(self).storage,
                final(host),
                &old(self).registry,
            ),
            r matches Ok(v) ==> is_data(v@),
            ({
                let (end, o) = verb_spec(
                    start_state(old(self).budget, old(self).storage@),
                    old(self).registry.names(),
                    old(self).registry.kinds(),
                    entity_id as int,
                    verb_name@,
                    items_view(args@),
                    match caller_id {
                        Some(id) => Some(id as int),
                        None => None,
                    },
                    old(self).now_ms as int,
                    MAX_DEPTH as nat,
                );
                (o is Host && final(host).asked()) || (final(self).storage@ == end.world
                    && result_outcome(r) == concluded(o) && *final(host) == *old(host))
            }),
            (inherited_verb(old(self).storage@, entity_id as int, verb_name@) matches Some(v)
                && harmless(v.code)) ==> final(self).storage@ == old(self).storage@,
            (inherited_verb(old(self).storage@, entity_id as int, verb_name@) matches Some(v)
                && harmless(v.code)) && powerless(
                old(self).storage@,
                entity_id as int,
                old(self).registry.kinds(),
            ) ==> final(host).invoked() == old(host).invoked(),
            inherited_verb(old(self).storage@, entity_id as int, verb_name@) is None ==> {
                &&& r is Err
                &&& r->Err_0 is VerbNotFound
                &&& r->Err_0->VerbNotFound_entity == entity_id
                &&& r->Err_0->VerbNotFound_verb@ == verb_name@
                &&& final(self).storage@ == old(self).storage@
            },
    {
        let mut m = Machine::new(self.budget);
        match run_verb(
            &mut m,
            &mut self.storage,
            &self.registry,
            host,
            entity_id,
            verb_name,
            args,
            caller_id,
            self.now_ms,
            MAX_DEPTH,
        ) {
            Ok(v) => conclude(Ok(v)),
            Err(e) => Err(e),
        }
    }
}

} // verus!
