//! JSON text, read by `serde_json`.
//!
//! The library reads JSON text through `serde_json` and holds what was
//! read as its own `SValue`. Writing JSON text is left to the embedding: a
//! value may hold a double, and doubles are only ever carried here, never
//! formatted.

use crate::hostcall::PluginReply;
use crate::ir::{fields_view, lemma_fields_view, lemma_list_view, list_view, SExpr, SExprView};
use crate::number::{bits_of_integer, Number};
use crate::value::{
    items_view, lemma_items_view, lemma_pairs_view, pairs_view, SValue, SValueView,
};
use vstd::prelude::*;

verus! {

/// `serde_json::Value`, which the library only passes on to `value_of`.
#[verifier::external_type_specification]
#[verifier::external_body]
pub struct ExJsonValue(serde_json::Value);

/// What `serde_json::from_str` makes of a text: the value that the text
/// denotes, or the description of what is wrong with the text.
pub uninterp spec fn parsed_json(text: Seq<char>) -> Result<SValueView, Seq<char>>;

/// The library's value for a value of `serde_json`.
///
/// Trusted: this takes a `serde_json::Value` apart, variant by variant. A
/// number that `as_i64` gives is held as that integer, any other as the
/// bit pattern of the double that `as_f64` gives; the pairs of an object
/// come in the order in which its map yields them. Nothing is claimed of
/// the result here; `parse_json` names it.
#[verifier::external_body]
fn value_of(json: &serde_json::Value) -> SValue {
    match json {
        serde_json::Value::Null => SValue::Null,
        serde_json::Value::Bool(b) => SValue::Bool(*b),
        serde_json::Value::Number(n) => SValue::Number(
            n.as_i64().map_or_else(
                || Number::Float(n.as_f64().unwrap_or_default().to_bits()),
                Number::Int,
            ),
        ),
        serde_json::Value::String(s) => SValue::String(s.clone()),
        serde_json::Value::Array(items) => SValue::Array(items.iter().map(value_of).collect()),
        serde_json::Value::Object(map) => SValue::Object(
            map.iter().map(|(k, v)| (k.clone(), value_of(v))).collect(),
        ),
    }
}

/// Reads JSON text.
///
/// Trusted: this is `serde_json::from_str` at the type `serde_json::Value`,
/// followed by the conversion above. The contract only gives the result a
/// name: the same text is read as the same value, or refused with the same
/// description, every time.
#[verifier::external_body]
pub(crate) fn parse_json(text: &str) -> (r: Result<SValue, String>)
    ensures
        match r {
            Ok(v) => parsed_json(text@) == Ok::<SValueView, Seq<char>>(v@),
            Err(e) => parsed_json(text@) == Err::<SValueView, Seq<char>>(e@),
        },
{
    match serde_json::from_str::<serde_json::Value>(text) {
        Ok(json) => Ok(value_of(&json)),
        Err(e) => Err(e.to_string()),
    }
}

/// The expression that a value read from JSON stands for: a list for an
/// array, an object for an object, each literal for itself; a number as
/// the double nearest to it.
pub open spec fn expression_of(v: SValueView) -> SExprView
    decreases v, 0int,
{
    match v {
        SValueView::Null => SExprView::Null,
        SValueView::Bool(b) => SExprView::Bool(b),
        SValueView::Number(Number::Int(n)) => SExprView::Number(bits_of_integer(n as int) as u64),
        SValueView::Number(Number::Float(bits)) => SExprView::Number(bits),
        SValueView::String(s) => SExprView::String(s),
        SValueView::Array(items) => SExprView::List(expressions_of(items)),
        SValueView::Object(pairs) => SExprView::Object(fields_of(pairs)),
        SValueView::Function(_) => SExprView::Null,
    }
}

/// The expressions that the values of a list stand for.
pub open spec fn expressions_of(items: Seq<SValueView>) -> Seq<SExprView>
    decreases items, 1int,
{
    if items.len() == 0 {
        Seq::empty()
    } else {
        expressions_of(items.drop_last()).push(expression_of(items.last()))
    }
}

/// The fields that the pairs of an object stand for.
pub open spec fn fields_of(pairs: Seq<(Seq<char>, SValueView)>) -> Seq<(Seq<char>, SExprView)>
    decreases pairs, 1int,
{
    if pairs.len() == 0 {
        Seq::empty()
    } else {
        fields_of(pairs.drop_last()).push((pairs.last().0, expression_of(pairs.last().1)))
    }
}

/// The expressions of a list are as many as its values, each that of the
/// value in its place.
pub proof fn lemma_expressions_of(items: Seq<SValueView>)
    ensures
        expressions_of(items).len() == items.len(),
        forall|i: int|
            0 <= i < items.len() ==> (#[trigger] expressions_of(items)[i]) == expression_of(items[i]),
    decreases items.len(),
{
    if items.len() > 0 {
        lemma_expressions_of(items.drop_last());
    }
}

/// The fields of an object are as many as its pairs, each with the key
/// and the expression of the pair in its place.
pub proof fn lemma_fields_of(pairs: Seq<(Seq<char>, SValueView)>)
    ensures
        fields_of(pairs).len() == pairs.len(),
        forall|i: int|
            0 <= i < pairs.len() ==> (#[trigger] fields_of(pairs)[i]) == (
                pairs[i].0,
                expression_of(pairs[i].1),
            ),
    decreases pairs.len(),
{
    if pairs.len() > 0 {
        lemma_fields_of(pairs.drop_last());
    }
}

/// The expression that a value stands for.
pub fn expr_of(v: &SValue) -> (r: SExpr)
    ensures
        r@ == expression_of(v@),
    decreases v,
{
    match v {
        SValue::Null => SExpr::Null,
        SValue::Bool(b) => SExpr::Bool(*b),
        SValue::Number(Number::Int(n)) => SExpr::Number(Number::bits_of(*n)),
        SValue::Number(Number::Float(bits)) => SExpr::Number(*bits),
        SValue::String(s) => SExpr::String(s.clone()),
        SValue::Function(_) => SExpr::Null,
        SValue::Array(items) => {
            let mut out: Vec<SExpr> = Vec::new();
            let mut i: usize = 0;
            while i < items.len()
                invariant
                    v is Array,
                    v->Array_0 == *items,
                    i <= items.len(),
                    out@.len() == i,
                    forall|j: int| 0 <= j < i ==> out@[j]@ == expression_of(items@[j]@),
                decreases items.len() - i,
            {
                out.push(expr_of(&items[i]));
                i += 1;
            }
            proof {
                lemma_list_view(out@);
                lemma_items_view(items@);
                lemma_expressions_of(items_view(items@));
                assert(list_view(out@) =~= expressions_of(items_view(items@)));
            }
            SExpr::List(out)
        },
        SValue::Object(pairs) => {
            let mut out: Vec<(String, SExpr)> = Vec::new();
            let mut i: usize = 0;
            while i < pairs.len()
                invariant
                    v is Object,
                    v->Object_0 == *pairs,
                    i <= pairs.len(),
                    out@.len() == i,
                    forall|j: int|
                        0 <= j < i ==> out@[j].0@ == pairs@[j].0@ && out@[j].1@ == expression_of(
                            pairs@[j].1@,
                        ),
                decreases pairs.len() - i,
            {
                out.push((pairs[i].0.clone(), expr_of(&pairs[i].1)));
                i += 1;
            }
            proof {
                lemma_fields_view(out@);
                lemma_pairs_view(pairs@);
                lemma_fields_of(pairs_view(pairs@));
                assert(fields_view(out@) =~= fields_of(pairs_view(pairs@)));
            }
            SExpr::Object(out)
        },
    }
}

/// What a JSON text is read as when it is meant to be an expression: the
/// expression that the value stands for, or the description of what is
/// wrong with the text.
pub open spec fn parsed_expr(text: Seq<char>) -> Result<SExprView, Seq<char>> {
    match parsed_json(text) {
        Ok(v) => Ok(expression_of(v)),
        Err(e) => Err(e),
    }
}

/// Reads an expression from JSON text.
pub fn parse_expr(text: &str) -> (r: Result<SExpr, String>)
    ensures
        match r {
            Ok(e) => parsed_expr(text@) == Ok::<SExprView, Seq<char>>(e@),
            Err(e) => parsed_expr(text@) == Err::<SExprView, Seq<char>>(e@),
        },
{
    match parse_json(text) {
        Ok(v) => Ok(expr_of(&v)),
        Err(e) => Err(e),
    }
}

/// What a text that is meant to be a plugin's input is read as: the
/// value, or the error that the plugin answers with.
pub open spec fn input_of(text: Seq<char>) -> Result<SValueView, Seq<char>> {
    match parsed_json(text) {
        Ok(v) => Ok(v),
        Err(e) => Err("JSON parse error: "@ + e),
    }
}

/// Reads the input of a plugin function.
pub fn plugin_input(text: &str) -> (r: Result<SValue, String>)
    ensures
        match r {
            Ok(v) => input_of(text@) == Ok::<SValueView, Seq<char>>(v@),
            Err(e) => input_of(text@) == Err::<SValueView, Seq<char>>(e@),
        },
{
    match parse_json(text) {
        Ok(v) => Ok(v),
        Err(e) => {
            let mut s = "JSON parse error: ".to_owned();
            s.append(e.as_str());
            Err(s)
        },
    }
}

/// The output that a plugin's output text holds: none where the plugin
/// left no text or where the text is not JSON.
pub open spec fn output_of(text: Option<Seq<char>>) -> Option<SValueView> {
    match text {
        Some(t) => match parsed_json(t) {
            Ok(v) => Some(v),
            Err(_) => None,
        },
        None => None,
    }
}

/// What came back from a plugin function, from its status and the text
/// that it left.
pub fn read_reply(status: i32, output: Option<&str>) -> (r: PluginReply)
    ensures
        r.status == status,
        output_of(
            match output {
                Some(t) => Some(t@),
                None => None,
            },
        ) == (match r.output {
            Some(v) => Some(v@),
            None => None,
        }),
{
    let parsed = match output {
        Some(text) => match parse_json(text) {
            Ok(v) => Some(v),
            Err(_) => None,
        },
        None => None,
    };
    PluginReply { status, output: parsed }
}

} // verus!
