//! The ways in which running a verb can fail.

use crate::entity::EntityId;
use crate::storage::StorageError;
use crate::text::{decimal, push_signed};
use crate::validation::ValidationError;
use crate::value::SValue;
use vstd::prelude::*;

verus! {

/// Why a verb call failed.
#[derive(Debug)]
pub enum ExecutionError {
    /// The world's store failed.
    Storage(StorageError),
    /// Neither the entity nor any of its prototypes has the verb.
    VerbNotFound { entity: EntityId, verb: String },
    /// No entity has this id.
    EntityNotFound(EntityId),
    /// A host effect was asked for, and neither the receiver nor any of its
    /// prototypes holds a capability of the kind that it takes.
    MissingCapability(String),
    /// A plugin reported a failure, or no plugin has registered the
    /// function: the text is the plugin's own, or says what is missing.
    PluginError(String),
    /// A value was thrown and no enclosing `std.try` caught it.
    ScriptThrow(SValue),
    /// The program was rejected before it ran.
    Validation(ValidationError),
    /// An opcode was given an argument of the wrong shape.
    TypeError(String),
    /// The call used up the steps that it was allowed.
    BudgetExceeded,
    /// The expression needs a host, for arithmetic on doubles or for a
    /// plugin, and was evaluated without one.
    HostRequired,
}

impl StorageError {
    /// The text of `message`.
    pub open spec fn message_text(self) -> Seq<char> {
        match self {
            StorageError::Database(text) => "database error: "@ + text@,
            StorageError::EntityNotFound(id) => "entity not found: "@ + decimal(id as int),
            StorageError::IdsExhausted => "no id is left"@,
        }
    }

    /// A sentence that describes the error.
    pub fn message(&self) -> (r: String)
        ensures
            r@ == self.message_text(),
    {
        match self {
            StorageError::Database(text) => {
                let mut s = "database error: ".to_owned();
                s.append(text.as_str());
                s
            },
            StorageError::EntityNotFound(id) => {
                let mut s = "entity not found: ".to_owned();
                push_signed(&mut s, *id);
                s
            },
            StorageError::IdsExhausted => "no id is left".to_owned(),
        }
    }
}

impl ExecutionError {
    /// The text of `message`. A thrown value is not part of it.
    pub open spec fn message_text(self) -> Seq<char> {
        match self {
            ExecutionError::Storage(e) => e.message_text(),
            ExecutionError::VerbNotFound { entity, verb } => "verb '"@ + verb@
                + "' not found on entity "@ + decimal(entity as int),
            ExecutionError::EntityNotFound(id) => "entity not found: "@ + decimal(id as int),
            ExecutionError::MissingCapability(kind) => "missing capability: "@ + kind@,
            ExecutionError::PluginError(text) => "plugin error: "@ + text@,
            ExecutionError::ScriptThrow(_) => "uncaught script error"@,
            ExecutionError::Validation(e) => "validation error: "@ + e.message_text(),
            ExecutionError::TypeError(text) => "type error: "@ + text@,
            ExecutionError::BudgetExceeded => "execution budget exceeded"@,
            ExecutionError::HostRequired => "a host is required"@,
        }
    }

    /// A sentence that describes the error.
    pub fn message(&self) -> (r: String)
        ensures
            r@ == self.message_text(),
    {
        match self {
            ExecutionError::Storage(e) => e.message(),
            ExecutionError::VerbNotFound { entity, verb } => {
                let mut s = "verb '".to_owned();
                s.append(verb.as_str());
                s.append("' not found on entity ");
                push_signed(&mut s, *entity);
                s
            },
            ExecutionError::EntityNotFound(id) => {
                let mut s = "entity not found: ".to_owned();
                push_signed(&mut s, *id);
                s
            },
            ExecutionError::MissingCapability(kind) => {
                let mut s = "missing capability: ".to_owned();
                s.append(kind.as_str());
                s
            },
            ExecutionError::PluginError(text) => {
                let mut s = "plugin error: ".to_owned();
                s.append(text.as_str());
                s
            },
            ExecutionError::ScriptThrow(_) => "uncaught script error".to_owned(),
            ExecutionError::Validation(e) => {
                let mut s = "validation error: ".to_owned();
                let inner = e.message();
                s.append(inner.as_str());
                s
            },
            ExecutionError::TypeError(text) => {
                let mut s = "type error: ".to_owned();
                s.append(text.as_str());
                s
            },
            ExecutionError::BudgetExceeded => "execution budget exceeded".to_owned(),
            ExecutionError::HostRequired => "a host is required".to_owned(),
        }
    }
}

} // verus!
