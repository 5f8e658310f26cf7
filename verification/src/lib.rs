//! A prototype-based entity world with verbs written in a small S-expression language.
//!
//! Entities hold properties and verbs and inherit both along a chain of
//! prototypes. A verb is a program in an S-expression representation; the
//! evaluator runs it against a receiver, the world and a host. What reaches
//! beyond the world (files, the network, databases) goes through plugin
//! functions, each of which takes a capability token that the receiver
//! holds.

pub mod assoc;
pub mod builtins;
pub mod entity;
pub mod error;
pub mod eval;
pub mod fs;
pub mod hostcall;
pub mod ir;
pub mod json;
pub mod loader;
pub mod machine;
pub mod net;
pub mod number;
pub mod opcode;
pub mod opcodes;
pub mod plugin;
pub mod prototype;
pub mod registry;
pub mod rpc;
pub mod runtime;
pub mod scheduler;
pub mod semantics;
pub mod sqlite;
pub mod storage;
pub mod syntax;
pub mod text;
pub mod transpile;
pub mod validation;
pub mod value;
