//! Structural validation of expressions before they are stored or run.

use crate::ir::{SExpr, SExprView};
use crate::text::{decimal_digits, push_unsigned};
use vstd::prelude::*;

verus! {

/// Why an expression was rejected.
#[derive(Debug)]
#[allow(inconsistent_fields)]
pub enum ValidationError {
    UnknownOpcode(String),
    InvalidArgCount { opcode: String, expected: usize, got: usize },
    InvalidArgType { opcode: String, position: usize, expected: String },
    EmptyCall,
    InvalidOpcodeName,
}

impl ValidationError {
    /// The text of `message`.
    pub open spec fn message_text(self) -> Seq<char> {
        match self {
            ValidationError::UnknownOpcode(name) => "unknown opcode: "@ + name@,
            ValidationError::InvalidArgCount { opcode, expected, got } =>
                "invalid argument count for "@ + opcode@ + ": expected "@ + decimal_digits(
                    expected as nat,
                ) + ", got "@ + decimal_digits(got as nat),
            ValidationError::InvalidArgType { opcode, position, expected } =>
                "invalid argument type for "@ + opcode@ + " at position "@ + decimal_digits(
                    position as nat,
                ) + ": expected "@ + expected@,
            ValidationError::EmptyCall => "empty opcode call"@,
            ValidationError::InvalidOpcodeName => "opcode name must be a string"@,
        }
    }

    /// A sentence that describes the error.
    pub fn message(&self) -> (r: String)
        ensures
            r@ == self.message_text(),
    {
        match self {
            ValidationError::UnknownOpcode(name) => {
                let mut s = "unknown opcode: ".to_owned();
                s.append(name.as_str());
                s
            },
            ValidationError::InvalidArgCount { opcode, expected, got } => {
                let mut s = "invalid argument count for ".to_owned();
                s.append(opcode.as_str());
                s.append(": expected ");
                push_unsigned(&mut s, *expected as u64);
                s.append(", got ");
                push_unsigned(&mut s, *got as u64);
                s
            },
            ValidationError::InvalidArgType { opcode, position, expected } => {
                let mut s = "invalid argument type for ".to_owned();
                s.append(opcode.as_str());
                s.append(" at position ");
                push_unsigned(&mut s, *position as u64);
                s.append(": expected ");
                s.append(expected.as_str());
                s
            },
            ValidationError::EmptyCall => "empty opcode call".to_owned(),
            ValidationError::InvalidOpcodeName => "opcode name must be a string".to_owned(),
        }
    }
}

/// Whether an expression is a well-formed program: its literals are, the
/// arguments of each call are, and so are the items of each literal list
/// and the values of each object. Arity and argument types are a matter for
/// evaluation.
pub open spec fn well_formed(e: SExprView) -> bool
    decreases e,
{
    match e {
        SExprView::Object(pairs) => forall|i: int|
            0 <= i < pairs.len() ==> well_formed(#[trigger] pairs[i].1),
        SExprView::List(items) => forall|i: int|
            (if e.is_call() {
                1int
            } else {
                0int
            }) <= i < items.len() ==> well_formed(#[trigger] items[i]),
        _ => true,
    }
}

/// Every expression is a well-formed program: a list that does not start
/// with a string is a literal list, so no shape is left to reject.
pub proof fn lemma_always_well_formed(e: SExprView)
    ensures
        well_formed(e),
    decreases e,
{
    match e {
        SExprView::Object(pairs) => {
            assert forall|i: int| 0 <= i < pairs.len() implies well_formed(
                #[trigger] pairs[i].1,
            ) by {
                lemma_always_well_formed(pairs[i].1);
            }
        },
        SExprView::List(items) => {
            assert forall|i: int| 0 <= i < items.len() implies well_formed(#[trigger] items[i]) by {
                lemma_always_well_formed(items[i]);
            }
        },
        _ => {},
    }
}

/// Checks that `expr` is a well-formed program.
pub fn validate(expr: &SExpr) -> (r: Result<(), ValidationError>)
    ensures
        r is Ok <==> well_formed(expr@),
        r is Ok,
    decreases expr,
{
    proof {
        lemma_always_well_formed(expr@);
    }
    match expr {
        SExpr::Null | SExpr::Bool(_) | SExpr::Number(_) | SExpr::String(_) => Ok(()),
        SExpr::Object(pairs) => {
            let mut i: usize = 0;
            while i < pairs.len()
                invariant
                    expr is Object,
                    expr->Object_0 == *pairs,
                    i <= pairs.len(),
                decreases pairs.len() - i,
            {
                match validate(&pairs[i].1) {
                    Ok(()) => {},
                    Err(e) => {
                        return Err(e);
                    },
                }
                i += 1;
            }
            Ok(())
        },
        SExpr::List(items) => {
            if items.len() == 0 {
                return Ok(());
            }
            let mut i: usize = if matches!(&items[0], SExpr::String(_)) {
                1
            } else {
                0
            };
            while i < items.len()
                invariant
                    expr is List,
                    expr->List_0 == *items,
                    i <= items.len(),
                decreases items.len() - i,
            {
                match validate(&items[i]) {
                    Ok(()) => {},
                    Err(e) => {
                        return Err(e);
                    },
                }
                i += 1;
            }
            Ok(())
        },
    }
}

} // verus!
