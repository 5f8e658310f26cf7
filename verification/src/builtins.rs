//! The opcodes that compute on values alone: strings, lists, objects,
//! truth, and numbers as far as they are exact.

use crate::assoc::{lookup, with_entry};
use crate::error::ExecutionError;
use crate::number::{integer_of_bits, Comparison, Number};
use crate::opcodes::{entity_id_of, to_entity_id};
use crate::text::{decimal, from_chars, push_signed, to_chars};
use crate::value::{
    items_view, lemma_items_view, lemma_pairs_view, pairs_view, set_entry, SValue, SValueView,
};
use vstd::prelude::*;

verus! {

/// Whether a value counts as true: everything but null and `false`.
pub open spec fn is_truthy(v: SValueView) -> bool {
    !(v is Null) && v != SValueView::Bool(false)
}

/// Whether `v` counts as true.
pub fn truthy(v: &SValue) -> (r: bool)
    ensures
        r == is_truthy(v@),
{
    match v {
        SValue::Null => false,
        SValue::Bool(b) => *b,
        _ => true,
    }
}

/// The value of a number literal: an integer where the double is a safe
/// integer, else the double.
pub open spec fn literal_value(bits: u64) -> SValueView {
    SValueView::Number(
        match integer_of_bits(bits) {
            Some(n) => Number::Int(n as i64),
            None => Number::Float(bits),
        },
    )
}

/// The value of the number literal with pattern `bits`.
pub fn number_literal(bits: u64) -> (r: SValue)
    ensures
        r@ == literal_value(bits),
{
    SValue::Number(Number::from_bits(bits))
}

/// A length as a number.
pub fn length_value(n: usize) -> (r: SValue)
    ensures
        r@ == SValueView::Number(Number::Int(n as i64)),
        n <= i64::MAX ==> r@ == SValueView::Number(Number::Int(n as int as i64)),
{
    SValue::Number(Number::Int(n as i64))
}

/// The text of a value that `str.concat` accepts: a string's text, an
/// integer's decimal numeral.
pub open spec fn text_of(v: SValueView) -> Option<Seq<char>> {
    match v {
        SValueView::String(s) => Some(s),
        SValueView::Number(Number::Int(n)) => Some(decimal(n as int)),
        _ => None,
    }
}

/// The texts of `items` joined, if each has one.
pub open spec fn joined(items: Seq<SValueView>) -> Option<Seq<char>>
    decreases items.len(),
{
    if items.len() == 0 {
        Some(Seq::empty())
    } else {
        match (joined(items.drop_last()), text_of(items.last())) {
            (Some(head), Some(tail)) => Some(head + tail),
            _ => None,
        }
    }
}

/// `str.concat(a, …)`: the texts of the arguments, joined. Strings and
/// integers have a text; any other argument is a type error.
pub fn str_concat(args: &Vec<SValue>) -> (r: Result<SValue, ExecutionError>)
    ensures
        match joined(items_view(args@)) {
            Some(text) => r is Ok && r->Ok_0@ == SValueView::String(text),
            None => r is Err && r->Err_0 is TypeError,
        },
{
    let mut out = String::new();
    let ghost all = items_view(args@);
    proof {
        lemma_items_view(args@);
        assert(all.take(0) =~= Seq::empty());
    }
    let mut i: usize = 0;
    while i < args.len()
        invariant
            i <= args.len(),
            all == items_view(args@),
            all.len() == args.len(),
            forall|j: int| 0 <= j < args.len() ==> (#[trigger] all[j]) == args@[j]@,
            joined(all.take(i as int)) == Some(out@),
        decreases args.len() - i,
    {
        proof {
            assert(all.take(i + 1).drop_last() =~= all.take(i as int));
            assert(all.take(i + 1).last() == all[i as int]);
        }
        match &args[i] {
            SValue::String(s) => {
                out.append(s.as_str());
            },
            SValue::Number(Number::Int(n)) => {
                push_signed(&mut out, *n);
            },
            _ => {
                proof {
                    lemma_joined_fails(all, i as int);
                }
                return Err(
                    ExecutionError::TypeError("str.concat: expected strings".to_owned()),
                );
            },
        }
        i += 1;
    }
    proof {
        assert(all.take(i as int) =~= all);
    }
    Ok(SValue::String(out))
}

/// A list with an item that has no text has no joined text.
pub proof fn lemma_joined_fails(items: Seq<SValueView>, i: int)
    requires
        0 <= i < items.len(),
        text_of(items[i]) is None,
    ensures
        joined(items) is None,
    decreases items.len(),
{
    if i < items.len() - 1 {
        assert(items.drop_last()[i] == items[i]);
        lemma_joined_fails(items.drop_last(), i);
    }
}

/// `str.len(s)`: the number of characters of a string.
pub fn str_len(v: &SValue) -> (r: Result<SValue, ExecutionError>)
    ensures
        match v@ {
            SValueView::String(s) => r is Ok && r->Ok_0@ == SValueView::Number(
                Number::Int(s.len() as i64),
            ),
            _ => r is Err && r->Err_0 is TypeError,
        },
{
    match v {
        SValue::String(s) => {
            let n = s.as_str().unicode_len();
            Ok(length_value(n))
        },
        _ => Err(ExecutionError::TypeError("str.len: expected a string".to_owned())),
    }
}

/// `i` brought into the range from 0 to `len`.
pub open spec fn clamp_index(i: int, len: int) -> int {
    if i < 0 {
        0
    } else if i > len {
        len
    } else {
        i
    }
}

/// The characters of `s` from position `start` up to, not including,
/// position `end`, both brought into range; none where `end` is not after
/// `start`.
pub open spec fn slice_text(s: Seq<char>, start: int, end: int) -> Seq<char> {
    let from = clamp_index(start, s.len() as int);
    let to = clamp_index(end, s.len() as int);
    if from < to {
        s.subrange(from, to)
    } else {
        Seq::empty()
    }
}

fn clamp(i: i64, len: usize) -> (r: usize)
    ensures
        r == clamp_index(i as int, len as int),
{
    if i < 0 {
        0
    } else if i as u64 > len as u64 {
        len
    } else {
        i as usize
    }
}

/// `str.slice(s, start, end?)`: the characters of `s` from `start` up to,
/// not including, `end` (the end of the string where `end` is null).
pub fn str_slice(s: &SValue, start: &SValue, end: &SValue) -> (r: Result<SValue, ExecutionError>)
    ensures
        match (s@, entity_id_of(start@)) {
            (SValueView::String(text), Some(from)) => if end@ is Null {
                r is Ok && r->Ok_0@ == SValueView::String(
                    slice_text(text, from as int, text.len() as int),
                )
            } else {
                match entity_id_of(end@) {
                    Some(to) => r is Ok && r->Ok_0@ == SValueView::String(
                        slice_text(text, from as int, to as int),
                    ),
                    None => r is Err && r->Err_0 is TypeError,
                }
            },
            _ => r is Err && r->Err_0 is TypeError,
        },
{
    let text = match s {
        SValue::String(text) => text,
        _ => {
            return Err(ExecutionError::TypeError("str.slice: expected a string".to_owned()));
        },
    };
    let from = match to_entity_id(start) {
        Some(from) => from,
        None => {
            return Err(ExecutionError::TypeError("str.slice: expected an integer".to_owned()));
        },
    };
    let chars = to_chars(text.as_str());
    let to: usize = match end {
        SValue::Null => chars.len(),
        _ => match to_entity_id(end) {
            Some(to) => clamp(to, chars.len()),
            None => {
                return Err(
                    ExecutionError::TypeError("str.slice: expected an integer".to_owned()),
                );
            },
        },
    };
    let from = clamp(from, chars.len());
    if from < to {
        Ok(SValue::String(from_chars(&chars, from, to)))
    } else {
        Ok(SValue::String(String::new()))
    }
}

/// `list.len(list)`: the number of items of a list.
pub fn list_len(v: &SValue) -> (r: Result<SValue, ExecutionError>)
    ensures
        match v@ {
            SValueView::Array(items) => r is Ok && r->Ok_0@ == SValueView::Number(
                Number::Int(items.len() as i64),
            ),
            _ => r is Err && r->Err_0 is TypeError,
        },
{
    match v {
        SValue::Array(items) => {
            proof {
                lemma_items_view(items@);
            }
            Ok(length_value(items.len()))
        },
        _ => Err(ExecutionError::TypeError("list.len: expected a list".to_owned())),
    }
}

/// `list.get(list, index)`: the item at `index`, counting from 0; null
/// where the list has no such item.
pub fn list_get(list: &SValue, index: &SValue) -> (r: Result<SValue, ExecutionError>)
    ensures
        match (list@, entity_id_of(index@)) {
            (SValueView::Array(items), Some(i)) => r is Ok && r->Ok_0@ == (if 0 <= i < items.len() {
                items[i as int]
            } else {
                SValueView::Null
            }),
            _ => r is Err && r->Err_0 is TypeError,
        },
{
    let items = match list {
        SValue::Array(items) => items,
        _ => {
            return Err(ExecutionError::TypeError("list.get: expected a list".to_owned()));
        },
    };
    proof {
        lemma_items_view(items@);
    }
    match to_entity_id(index) {
        Some(i) => if 0 <= i && (i as u64) < items.len() as u64 {
            Ok(items[i as usize].clone())
        } else {
            Ok(SValue::Null)
        },
        None => Err(ExecutionError::TypeError("list.get: expected an integer".to_owned())),
    }
}

/// `obj.get(obj, key)`: the value of field `key`; null where the object
/// has no such field.
pub fn obj_get(obj: &SValue, key: &SValue) -> (r: Result<SValue, ExecutionError>)
    ensures
        match (obj@, key@) {
            (SValueView::Object(pairs), SValueView::String(k)) => r is Ok && r->Ok_0@ == (match lookup(
                pairs,
                k,
            ) {
                Some(v) => v,
                None => SValueView::Null,
            }),
            _ => r is Err && r->Err_0 is TypeError,
        },
{
    match (obj, key) {
        (SValue::Object(_), SValue::String(k)) => match obj.get(k.as_str()) {
            Some(v) => Ok(v.clone()),
            None => Ok(SValue::Null),
        },
        _ => Err(ExecutionError::TypeError("obj.get: expected an object and a key".to_owned())),
    }
}

/// `obj.set(obj, key, value)`: the object with field `key` set to
/// `value`. The object that was given is not changed.
pub fn obj_set(obj: &SValue, key: &SValue, value: SValue) -> (r: Result<SValue, ExecutionError>)
    ensures
        match (obj@, key@) {
            (SValueView::Object(pairs), SValueView::String(k)) => r is Ok && r->Ok_0@
                == SValueView::Object(with_entry(pairs, k, value@)),
            _ => r is Err && r->Err_0 is TypeError,
        },
{
    match (obj, key) {
        (SValue::Object(_), SValue::String(k)) => {
            let copy = obj.clone();
            match copy {
                SValue::Object(pairs) => {
                    let mut pairs = pairs;
                    set_entry(&mut pairs, k.as_str(), value);
                    Ok(SValue::Object(pairs))
                },
                _ => Err(ExecutionError::TypeError("obj.set: expected an object".to_owned())),
            }
        },
        _ => Err(ExecutionError::TypeError("obj.set: expected an object and a key".to_owned())),
    }
}

/// The keys of the pairs of an object, as values.
pub open spec fn key_values(pairs: Seq<(Seq<char>, SValueView)>) -> Seq<SValueView> {
    Seq::new(pairs.len(), |i: int| SValueView::String(pairs[i].0))
}

/// `obj.keys(obj)`: the keys of the object's pairs, in order.
pub fn obj_keys(obj: &SValue) -> (r: Result<SValue, ExecutionError>)
    ensures
        match obj@ {
            SValueView::Object(pairs) => r is Ok && r->Ok_0@ == SValueView::Array(key_values(pairs)),
            _ => r is Err && r->Err_0 is TypeError,
        },
{
    match obj {
        SValue::Object(pairs) => {
            proof {
                lemma_pairs_view(pairs@);
            }
            let mut keys: Vec<SValue> = Vec::new();
            let mut i: usize = 0;
            while i < pairs.len()
                invariant
                    i <= pairs.len(),
                    keys@.len() == i,
                    forall|j: int| 0 <= j < i ==> keys@[j]@ == SValueView::String(pairs@[j].0@),
                decreases pairs.len() - i,
            {
                keys.push(SValue::String(pairs[i].0.clone()));
                i += 1;
            }
            proof {
                lemma_items_view(keys@);
                assert(items_view(keys@) =~= key_values(pairs_view(pairs@)));
            }
            Ok(SValue::Array(keys))
        },
        _ => Err(ExecutionError::TypeError("obj.keys: expected an object".to_owned())),
    }
}

/// The number that a value is.
pub open spec fn number_of(v: SValueView) -> Option<Number> {
    match v {
        SValueView::Number(n) => Some(n),
        _ => None,
    }
}

/// The number that `v` is.
pub fn as_number(v: &SValue) -> (r: Option<Number>)
    ensures
        r == number_of(v@),
{
    match v {
        SValue::Number(n) => Some(*n),
        _ => None,
    }
}

/// The negation of a number, where it is exact: that of a safe integer
/// other than 0.
pub open spec fn exact_negation(n: Number) -> Option<Number> {
    match n.as_integer() {
        Some(x) => if x != 0 {
            Some(Number::Int((-x) as i64))
        } else {
            None
        },
        None => None,
    }
}

/// The negation of `n`, where it is exact.
pub fn negate_exact(n: Number) -> (r: Option<Number>)
    ensures
        r == exact_negation(n),
{
    match n.to_integer() {
        Some(x) => if x != 0 {
            Some(Number::Int(-x))
        } else {
            None
        },
        None => None,
    }
}

/// The truth of a comparison opcode, given how its operands compare.
pub open spec fn comparison_holds(op: CompareOp, c: Comparison) -> bool {
    match op {
        CompareOp::Lt => c == Comparison::Less,
        CompareOp::Gt => c == Comparison::Greater,
        CompareOp::Lte => c == Comparison::Less || c == Comparison::Equal,
        CompareOp::Gte => c == Comparison::Greater || c == Comparison::Equal,
    }
}

/// The ordering opcodes.
#[derive(Clone, Copy, Debug, PartialEq, Eq, Structural)]
pub enum CompareOp {
    Lt,
    Gt,
    Lte,
    Gte,
}

/// The truth of the comparison `op`, given how its operands compare.
pub fn holds(op: CompareOp, c: Comparison) -> (r: bool)
    ensures
        r == comparison_holds(op, c),
{
    match op {
        CompareOp::Lt => c == Comparison::Less,
        CompareOp::Gt => c == Comparison::Greater,
        CompareOp::Lte => c == Comparison::Less || c == Comparison::Equal,
        CompareOp::Gte => c == Comparison::Greater || c == Comparison::Equal,
    }
}

} // verus!
