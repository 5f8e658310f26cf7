//! The core opcodes and their names.

use crate::builtins::CompareOp;
use crate::number::MathOp;
use crate::text::str_eq;
use vstd::prelude::*;

verus! {

/// A core opcode. Host effects are not among them: they are whatever the
/// plugin registry holds.
#[derive(Clone, Copy, Debug, PartialEq, Eq, Structural)]
pub enum Opcode {
    StdSeq,
    StdLet,
    StdSet,
    StdVar,
    StdIf,
    StdFor,
    StdWhile,
    StdBreak,
    StdContinue,
    StdTry,
    StdThrow,
    StdFn,
    StdCaller,
    StdThis,
    StdArgs,
    StdArg,
    Math(MathOp),
    MathNeg,
    BoolEq,
    BoolNeq,
    Compare(CompareOp),
    BoolAnd,
    BoolOr,
    BoolNot,
    BoolGuard,
    StrConcat,
    StrLen,
    StrSlice,
    ListNew,
    ListGet,
    ListLen,
    ListMap,
    ListFilter,
    ObjNew,
    ObjGet,
    ObjSet,
    ObjKeys,
    Entity,
    Create,
    Update,
    Call,
    Schedule,
    TimeNow,
}

/// The names of the libraries that hold the core opcodes.
pub fn core_libraries() -> (r: Vec<&'static str>)
    ensures
        r@.len() == 7,
        r@[0]@ == "std"@,
        r@[1]@ == "list"@,
        r@[2]@ == "obj"@,
        r@[3]@ == "str"@,
        r@[4]@ == "math"@,
        r@[5]@ == "time"@,
        r@[6]@ == "bool"@,
{
    let mut v: Vec<&'static str> = Vec::new();
    v.push("std");
    v.push("list");
    v.push("obj");
    v.push("str");
    v.push("math");
    v.push("time");
    v.push("bool");
    v
}

/// The core opcode that a name stands for. `std.fn` and `std.lambda` are
/// two names of one opcode.
pub open spec fn opcode_of(name: Seq<char>) -> Option<Opcode> {
    if name == "std.seq"@ {
        Some(Opcode::StdSeq)
    } else if name == "std.let"@ {
        Some(Opcode::StdLet)
    } else if name == "std.set"@ {
        Some(Opcode::StdSet)
    } else if name == "std.var"@ {
        Some(Opcode::StdVar)
    } else if name == "std.if"@ {
        Some(Opcode::StdIf)
    } else if name == "std.for"@ {
        Some(Opcode::StdFor)
    } else if name == "std.while"@ {
        Some(Opcode::StdWhile)
    } else if name == "std.break"@ {
        Some(Opcode::StdBreak)
    } else if name == "std.continue"@ {
        Some(Opcode::StdContinue)
    } else if name == "std.try"@ {
        Some(Opcode::StdTry)
    } else if name == "std.throw"@ {
        Some(Opcode::StdThrow)
    } else if name == "std.fn"@ {
        Some(Opcode::StdFn)
    } else if name == "std.lambda"@ {
        Some(Opcode::StdFn)
    } else if name == "std.caller"@ {
        Some(Opcode::StdCaller)
    } else if name == "std.this"@ {
        Some(Opcode::StdThis)
    } else if name == "std.args"@ {
        Some(Opcode::StdArgs)
    } else if name == "std.arg"@ {
        Some(Opcode::StdArg)
    } else if name == "math.add"@ {
        Some(Opcode::Math(MathOp::Add))
    } else if name == "math.sub"@ {
        Some(Opcode::Math(MathOp::Sub))
    } else if name == "math.mul"@ {
        Some(Opcode::Math(MathOp::Mul))
    } else if name == "math.div"@ {
        Some(Opcode::Math(MathOp::Div))
    } else if name == "math.mod"@ {
        Some(Opcode::Math(MathOp::Mod))
    } else if name == "math.pow"@ {
        Some(Opcode::Math(MathOp::Pow))
    } else if name == "math.neg"@ {
        Some(Opcode::MathNeg)
    } else if name == "bool.eq"@ {
        Some(Opcode::BoolEq)
    } else if name == "bool.neq"@ {
        Some(Opcode::BoolNeq)
    } else if name == "bool.lt"@ {
        Some(Opcode::Compare(CompareOp::Lt))
    } else if name == "bool.gt"@ {
        Some(Opcode::Compare(CompareOp::Gt))
    } else if name == "bool.lte"@ {
        Some(Opcode::Compare(CompareOp::Lte))
    } else if name == "bool.gte"@ {
        Some(Opcode::Compare(CompareOp::Gte))
    } else if name == "bool.and"@ {
        Some(Opcode::BoolAnd)
    } else if name == "bool.or"@ {
        Some(Opcode::BoolOr)
    } else if name == "bool.not"@ {
        Some(Opcode::BoolNot)
    } else if name == "bool.guard"@ {
        Some(Opcode::BoolGuard)
    } else if name == "str.concat"@ {
        Some(Opcode::StrConcat)
    } else if name == "str.len"@ {
        Some(Opcode::StrLen)
    } else if name == "str.slice"@ {
        Some(Opcode::StrSlice)
    } else if name == "list.new"@ {
        Some(Opcode::ListNew)
    } else if name == "list.get"@ {
        Some(Opcode::ListGet)
    } else if name == "list.len"@ {
        Some(Opcode::ListLen)
    } else if name == "list.map"@ {
        Some(Opcode::ListMap)
    } else if name == "list.filter"@ {
        Some(Opcode::ListFilter)
    } else if name == "obj.new"@ {
        Some(Opcode::ObjNew)
    } else if name == "obj.get"@ {
        Some(Opcode::ObjGet)
    } else if name == "obj.set"@ {
        Some(Opcode::ObjSet)
    } else if name == "obj.keys"@ {
        Some(Opcode::ObjKeys)
    } else if name == "entity"@ {
        Some(Opcode::Entity)
    } else if name == "create"@ {
        Some(Opcode::Create)
    } else if name == "update"@ {
        Some(Opcode::Update)
    } else if name == "call"@ {
        Some(Opcode::Call)
    } else if name == "schedule"@ {
        Some(Opcode::Schedule)
    } else if name == "time.now"@ {
        Some(Opcode::TimeNow)
    } else {
        None
    }
}

/// The core opcode that `name` stands for.
pub fn parse_opcode(name: &str) -> (r: Option<Opcode>)
    ensures
        r == opcode_of(name@),
{
    if str_eq(name, "std.seq") {
        Some(Opcode::StdSeq)
    } else if str_eq(name, "std.let") {
        Some(Opcode::StdLet)
    } else if str_eq(name, "std.set") {
        Some(Opcode::StdSet)
    } else if str_eq(name, "std.var") {
        Some(Opcode::StdVar)
    } else if str_eq(name, "std.if") {
        Some(Opcode::StdIf)
    } else if str_eq(name, "std.for") {
        Some(Opcode::StdFor)
    } else if str_eq(name, "std.while") {
        Some(Opcode::StdWhile)
    } else if str_eq(name, "std.break") {
        Some(Opcode::StdBreak)
    } else if str_eq(name, "std.continue") {
        Some(Opcode::StdContinue)
    } else if str_eq(name, "std.try") {
        Some(Opcode::StdTry)
    } else if str_eq(name, "std.throw") {
        Some(Opcode::StdThrow)
    } else if str_eq(name, "std.fn") {
        Some(Opcode::StdFn)
    } else if str_eq(name, "std.lambda") {
        Some(Opcode::StdFn)
    } else if str_eq(name, "std.caller") {
        Some(Opcode::StdCaller)
    } else if str_eq(name, "std.this") {
        Some(Opcode::StdThis)
    } else if str_eq(name, "std.args") {
        Some(Opcode::StdArgs)
    } else if str_eq(name, "std.arg") {
        Some(Opcode::StdArg)
    } else if str_eq(name, "math.add") {
        Some(Opcode::Math(MathOp::Add))
    } else if str_eq(name, "math.sub") {
        Some(Opcode::Math(MathOp::Sub))
    } else if str_eq(name, "math.mul") {
        Some(Opcode::Math(MathOp::Mul))
    } else if str_eq(name, "math.div") {
        Some(Opcode::Math(MathOp::Div))
    } else if str_eq(name, "math.mod") {
        Some(Opcode::Math(MathOp::Mod))
    } else if str_eq(name, "math.pow") {
        Some(Opcode::Math(MathOp::Pow))
    } else if str_eq(name, "math.neg") {
        Some(Opcode::MathNeg)
    } else if str_eq(name, "bool.eq") {
        Some(Opcode::BoolEq)
    } else if str_eq(name, "bool.neq") {
        Some(Opcode::BoolNeq)
    } else if str_eq(name, "bool.lt") {
        Some(Opcode::Compare(CompareOp::Lt))
    } else if str_eq(name, "bool.gt") {
        Some(Opcode::Compare(CompareOp::Gt))
    } else if str_eq(name, "bool.lte") {
        Some(Opcode::Compare(CompareOp::Lte))
    } else if str_eq(name, "bool.gte") {
        Some(Opcode::Compare(CompareOp::Gte))
    } else if str_eq(name, "bool.and") {
        Some(Opcode::BoolAnd)
    } else if str_eq(name, "bool.or") {
        Some(Opcode::BoolOr)
    } else if str_eq(name, "bool.not") {
        Some(Opcode::BoolNot)
    } else if str_eq(name, "bool.guard") {
        Some(Opcode::BoolGuard)
    } else if str_eq(name, "str.concat") {
        Some(Opcode::StrConcat)
    } else if str_eq(name, "str.len") {
        Some(Opcode::StrLen)
    } else if str_eq(name, "str.slice") {
        Some(Opcode::StrSlice)
    } else if str_eq(name, "list.new") {
        Some(Opcode::ListNew)
    } else if str_eq(name, "list.get") {
        Some(Opcode::ListGet)
    } else if str_eq(name, "list.len") {
        Some(Opcode::ListLen)
    } else if str_eq(name, "list.map") {
        Some(Opcode::ListMap)
    } else if str_eq(name, "list.filter") {
        Some(Opcode::ListFilter)
    } else if str_eq(name, "obj.new") {
        Some(Opcode::ObjNew)
    } else if str_eq(name, "obj.get") {
        Some(Opcode::ObjGet)
    } else if str_eq(name, "obj.set") {
        Some(Opcode::ObjSet)
    } else if str_eq(name, "obj.keys") {
        Some(Opcode::ObjKeys)
    } else if str_eq(name, "entity") {
        Some(Opcode::Entity)
    } else if str_eq(name, "create") {
        Some(Opcode::Create)
    } else if str_eq(name, "update") {
        Some(Opcode::Update)
    } else if str_eq(name, "call") {
        Some(Opcode::Call)
    } else if str_eq(name, "schedule") {
        Some(Opcode::Schedule)
    } else if str_eq(name, "time.now") {
        Some(Opcode::TimeNow)
    } else {
        None
    }
}

} // verus!
