//! What the world holds: entities, their verbs and capability tokens, and
//! scheduled tasks.

use crate::ir::{SExpr, SExprView};
use crate::value::{SValue, SValueView};
use vstd::prelude::*;

verus! {

/// The number that identifies an entity.
pub type EntityId = i64;

/// A persistent object: an optional prototype and free-form properties.
#[derive(Debug, PartialEq)]
pub struct Entity {
    pub id: EntityId,
    pub prototype_id: Option<EntityId>,
    pub props: SValue,
}

/// The mathematical value of an `Entity`.
pub ghost struct EntityView {
    pub id: int,
    pub prototype_id: Option<int>,
    pub props: SValueView,
}

impl View for Entity {
    type V = EntityView;

    open spec fn view(&self) -> EntityView {
        EntityView {
            id: self.id as int,
            prototype_id: match self.prototype_id {
                Some(p) => Some(p as int),
                None => None,
            },
            props: self.props@,
        }
    }
}

impl Clone for Entity {
    fn clone(&self) -> (r: Entity)
        ensures
            r@ == self@,
            r.id == self.id,
            r.prototype_id == self.prototype_id,
    {
        Entity { id: self.id, prototype_id: self.prototype_id, props: self.props.clone() }
    }
}

/// A named program owned by an entity.
#[derive(Debug, PartialEq)]
pub struct Verb {
    pub owner_id: EntityId,
    pub name: String,
    pub code: SExpr,
}

/// The mathematical value of a `Verb`.
pub ghost struct VerbView {
    pub owner_id: int,
    pub name: Seq<char>,
    pub code: SExprView,
}

impl View for Verb {
    type V = VerbView;

    open spec fn view(&self) -> VerbView {
        VerbView { owner_id: self.owner_id as int, name: self.name@, code: self.code@ }
    }
}

impl Clone for Verb {
    fn clone(&self) -> (r: Verb)
        ensures
            r@ == self@,
    {
        Verb { owner_id: self.owner_id, name: self.name.clone(), code: self.code.clone() }
    }
}

/// A token that authorises its owner to a class of host effects, within
/// the scope that `params` describes.
#[derive(Debug, PartialEq)]
pub struct Capability {
    pub id: i64,
    pub owner_id: EntityId,
    pub kind: String,
    pub params: SValue,
}

/// The mathematical value of a `Capability`.
pub ghost struct CapabilityView {
    pub id: int,
    pub owner_id: int,
    pub kind: Seq<char>,
    pub params: SValueView,
}

impl View for Capability {
    type V = CapabilityView;

    open spec fn view(&self) -> CapabilityView {
        CapabilityView {
            id: self.id as int,
            owner_id: self.owner_id as int,
            kind: self.kind@,
            params: self.params@,
        }
    }
}

impl Clone for Capability {
    fn clone(&self) -> (r: Capability)
        ensures
            r@ == self@,
    {
        Capability {
            id: self.id,
            owner_id: self.owner_id,
            kind: self.kind.clone(),
            params: self.params.clone(),
        }
    }
}

/// A verb invocation that is due at a given time.
#[derive(Debug, PartialEq)]
pub struct ScheduledTask {
    pub id: i64,
    pub entity_id: EntityId,
    pub verb: String,
    pub args: SValue,
    pub execute_at_ms: i64,
}

/// The mathematical value of a `ScheduledTask`.
pub ghost struct TaskView {
    pub id: int,
    pub entity_id: int,
    pub verb: Seq<char>,
    pub args: SValueView,
    pub execute_at_ms: int,
}

impl View for ScheduledTask {
    type V = TaskView;

    open spec fn view(&self) -> TaskView {
        TaskView {
            id: self.id as int,
            entity_id: self.entity_id as int,
            verb: self.verb@,
            args: self.args@,
            execute_at_ms: self.execute_at_ms as int,
        }
    }
}

impl Clone for ScheduledTask {
    fn clone(&self) -> (r: ScheduledTask)
        ensures
            r@ == self@,
    {
        ScheduledTask {
            id: self.id,
            entity_id: self.entity_id,
            verb: self.verb.clone(),
            args: self.args.clone(),
            execute_at_ms: self.execute_at_ms,
        }
    }
}

} // verus!
