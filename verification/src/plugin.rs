//! What the host-effect plugins share: how a request is read, how the
//! owner of a capability is checked, and how a result becomes a status and
//! an output.

use crate::value::{lemma_pairs_view, pairs_view, SValue, SValueView};
use vstd::prelude::*;

verus! {

/// The output that reports the failure `msg`: an object with `msg` under
/// `error`.
pub open spec fn error_value(msg: Seq<char>) -> SValueView {
    SValueView::Object(seq![("error"@, SValueView::String(msg))])
}

/// The object with the one field `key`.
pub open spec fn single_field(key: Seq<char>, value: SValueView) -> SValueView {
    SValueView::Object(seq![(key, value)])
}

/// The output that reports the failure `msg`.
pub fn error_json(msg: &str) -> (r: SValue)
    ensures
        r@ == error_value(msg@),
{
    object_with(&"error", SValue::String(msg.to_owned()))
}

/// The object with the one field `key`.
pub fn object_with(key: &str, value: SValue) -> (r: SValue)
    ensures
        r@ == single_field(key@, value@),
{
    let mut pairs: Vec<(String, SValue)> = Vec::new();
    pairs.push((key.to_owned(), value));
    proof {
        lemma_pairs_view(pairs@);
        assert(pairs_view(pairs@) =~= seq![(key@, value@)]);
    }
    SValue::Object(pairs)
}

/// The status and the output with which a plugin function ends: status 0
/// and the result, or status -1 and the error as an output.
pub fn plugin_output(result: Result<SValue, String>) -> (r: (i32, SValue))
    ensures
        match result {
            Ok(v) => r.0 == 0 && r.1@ == v@,
            Err(e) => r.0 == -1 && r.1@ == error_value(e@),
        },
{
    match result {
        Ok(v) => (0, v),
        Err(e) => (-1, error_json(e.as_str())),
    }
}

/// The view of an optional text.
pub open spec fn view_of(s: Option<&str>) -> Option<Seq<char>> {
    match s {
        Some(s) => Some(s@),
        None => None,
    }
}

/// The integer under `key` in a request.
pub open spec fn integer_field(input: SValueView, key: Seq<char>) -> Option<i64> {
    match input.field(key) {
        Some(v) => v.as_int(),
        None => None,
    }
}

/// The text under `key` in a request.
pub open spec fn text_field(input: SValueView, key: Seq<char>) -> Option<Seq<char>> {
    match input.field(key) {
        Some(v) => v.as_text(),
        None => None,
    }
}

/// The integer under `key` in a request.
pub fn get_integer(input: &SValue, key: &str) -> (r: Option<i64>)
    ensures
        r == integer_field(input@, key@),
{
    match input.get(key) {
        Some(v) => v.as_i64(),
        None => None,
    }
}

/// The text under `key` in a request.
pub fn get_text<'a>(input: &'a SValue, key: &str) -> (r: Option<&'a str>)
    ensures
        match r {
            Some(s) => text_field(input@, key@) == Some(s@),
            None => text_field(input@, key@) is None,
        },
{
    match input.get(key) {
        Some(v) => v.as_str(),
        None => None,
    }
}

/// Whether the capability is the entity's own: `Ok`, or what is wrong. The
/// texts start with the plugin's name.
pub open spec fn owner_verdict(plugin: Seq<char>, capability: SValueView, entity_id: int) -> Result<
    (),
    Seq<char>,
> {
    match integer_field(capability, "owner_id"@) {
        None => Err(plugin + ": capability missing owner_id"@),
        Some(owner) => if owner != entity_id {
            Err(plugin + ": capability does not belong to current entity"@)
        } else {
            Ok(())
        },
    }
}

/// Checks that the capability names `entity_id` as its owner.
pub fn check_owner(plugin: &str, capability: &SValue, entity_id: i64) -> (r: Result<(), String>)
    ensures
        match r {
            Ok(()) => owner_verdict(plugin@, capability@, entity_id as int) is Ok,
            Err(e) => owner_verdict(plugin@, capability@, entity_id as int) == Err::<(), Seq<char>>(
                e@,
            ),
        },
{
    match get_integer(capability, "owner_id") {
        None => {
            let mut s = plugin.to_owned();
            s.append(": capability missing owner_id");
            Err(s)
        },
        Some(owner) => if owner != entity_id {
            let mut s = plugin.to_owned();
            s.append(": capability does not belong to current entity");
            Err(s)
        } else {
            Ok(())
        },
    }
}

/// The text under `key` in the capability's parameters.
pub open spec fn scope_field(capability: SValueView, key: Seq<char>) -> Option<Seq<char>> {
    match capability.field("params"@) {
        Some(params) => text_field(params, key),
        None => None,
    }
}

/// The text under `key` in the capability's parameters.
pub fn get_scope<'a>(capability: &'a SValue, key: &str) -> (r: Option<&'a str>)
    ensures
        match r {
            Some(s) => scope_field(capability@, key@) == Some(s@),
            None => scope_field(capability@, key@) is None,
        },
{
    match capability.get("params") {
        Some(params) => get_text(params, key),
        None => None,
    }
}

} // verus!
