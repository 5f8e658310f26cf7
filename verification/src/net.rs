//! The network plugin's rules: when a capability grants a URL, and what a
//! response looks like.

use crate::number::Number;
use crate::opcodes::merge_entries;
use crate::plugin::{
    check_owner, get_integer, get_scope, get_text, integer_field, owner_verdict, scope_field,
    text_field,
};
use crate::registry::{none_registered, PluginRegistry};
use crate::text::{starts_with, str_eq};
use crate::value::{lemma_pairs_view, pairs_view, set_entry, SValue, SValueView};
use vstd::prelude::*;

verus! {

/// Whether `capability` grants entity `entity_id` the URL `url`: the
/// entity owns the token, and the pattern that the token names is `*` or
/// an initial segment of the URL.
pub open spec fn access_verdict(capability: SValueView, entity_id: int, url: Seq<char>) -> Result<
    (),
    Seq<char>,
> {
    match owner_verdict("net"@, capability, entity_id) {
        Err(e) => Err(e),
        Ok(()) => match scope_field(capability, "url"@) {
            None => Err("net: capability missing url parameter"@),
            Some(pattern) => if pattern == "*"@ || pattern.is_prefix_of(url) {
                Ok(())
            } else {
                Err(
                    "net: URL '"@ + url + "' not allowed by capability (pattern: '"@ + pattern
                        + "')"@,
                )
            },
        },
    }
}

/// Validates that `capability` grants entity `entity_id` the URL
/// `requested_url`.
pub fn validate_capability(capability: &SValue, entity_id: i64, requested_url: &str) -> (r: Result<
    (),
    String,
>)
    ensures
        match r {
            Ok(()) => access_verdict(capability@, entity_id as int, requested_url@) is Ok,
            Err(e) => access_verdict(capability@, entity_id as int, requested_url@) == Err::<
                (),
                Seq<char>,
            >(e@),
        },
{
    match check_owner("net", capability, entity_id) {
        Err(e) => {
            return Err(e);
        },
        Ok(()) => {},
    }
    let pattern = match get_scope(capability, "url") {
        None => {
            return Err("net: capability missing url parameter".to_owned());
        },
        Some(pattern) => pattern,
    };
    if str_eq(pattern, "*") {
        return Ok(());
    }
    if starts_with(requested_url, pattern) {
        Ok(())
    } else {
        let mut s = "net: URL '".to_owned();
        s.append(requested_url);
        s.append("' not allowed by capability (pattern: '");
        s.append(pattern);
        s.append("')");
        Err(s)
    }
}

/// The headers of a response as pairs of values.
pub open spec fn header_entries(headers: Seq<(String, String)>) -> Seq<(Seq<char>, SValueView)> {
    Seq::new(headers.len(), |i: int| (headers[i].0@, SValueView::String(headers[i].1@)))
}

/// The answer of `net.get` and `net.post`: the status, the headers as an
/// object in which the last header of a name counts, and the body.
pub open spec fn response_value(status: u16, headers: Seq<(String, String)>, body: Seq<char>) -> SValueView {
    SValueView::Object(
        seq![
            ("status"@, SValueView::Number(Number::Int(status as i64))),
            ("headers"@, SValueView::Object(merge_entries(Seq::empty(), header_entries(headers)))),
            ("body"@, SValueView::String(body)),
        ],
    )
}

/// The answer of `net.get` and `net.post`.
pub fn response(status: u16, headers: &Vec<(String, String)>, body: &str) -> (r: SValue)
    ensures
        r@ == response_value(status, headers@, body@),
{
    let mut fields: Vec<(String, SValue)> = Vec::new();
    let ghost all = header_entries(headers@);
    proof {
        lemma_pairs_view(fields@);
        assert(pairs_view(fields@) =~= Seq::empty());
        assert(all.take(0) =~= Seq::empty());
    }
    let mut i: usize = 0;
    while i < headers.len()
        invariant
            i <= headers.len(),
            all == header_entries(headers@),
            pairs_view(fields@) == merge_entries(Seq::empty(), all.take(i as int)),
        decreases headers.len() - i,
    {
        proof {
            assert(all.take(i + 1).drop_last() =~= all.take(i as int));
            assert(all.take(i + 1).last() == all[i as int]);
        }
        set_entry(&mut fields, headers[i].0.as_str(), SValue::String(headers[i].1.clone()));
        i += 1;
    }
    proof {
        assert(all.take(i as int) =~= all);
    }
    let mut pairs: Vec<(String, SValue)> = Vec::new();
    pairs.push(("status".to_owned(), SValue::Number(Number::Int(status as i64))));
    pairs.push(("headers".to_owned(), SValue::Object(fields)));
    pairs.push(("body".to_owned(), SValue::String(body.to_owned())));
    proof {
        lemma_pairs_view(pairs@);
        assert(pairs_view(pairs@) =~= response_value(status, headers@, body@)->Object_0);
    }
    SValue::Object(pairs)
}

/// What a request to the network plugin holds.
#[derive(Debug)]
pub struct NetRequest {
    pub capability: SValue,
    pub entity_id: i64,
    pub url: String,
    pub headers: Vec<(String, String)>,
    pub body: String,
}

/// The pairs among `pairs` whose value is a text, in order.
pub open spec fn text_headers(pairs: Seq<(Seq<char>, SValueView)>) -> Seq<(Seq<char>, Seq<char>)>
    decreases pairs.len(),
{
    if pairs.len() == 0 {
        Seq::empty()
    } else {
        match pairs.last().1 {
            SValueView::String(v) => text_headers(pairs.drop_last()).push((pairs.last().0, v)),
            _ => text_headers(pairs.drop_last()),
        }
    }
}

/// The headers of a request: the text-valued pairs of the object under
/// `headers`; none where there is no such object.
pub open spec fn request_headers(input: SValueView) -> Seq<(Seq<char>, Seq<char>)> {
    match input.field("headers"@) {
        Some(SValueView::Object(pairs)) => text_headers(pairs),
        _ => Seq::empty(),
    }
}

/// The views of a list of headers.
pub open spec fn header_views(headers: Seq<(String, String)>) -> Seq<(Seq<char>, Seq<char>)> {
    Seq::new(headers.len(), |i: int| (headers[i].0@, headers[i].1@))
}

/// What `parse_request` makes of a request: the capability (null where
/// there is none), the id of the calling entity, the URL, the headers and
/// the body (empty where there is none); or the name of the first field
/// that is missing.
pub open spec fn parsed_request(input: SValueView) -> Result<
    (SValueView, i64, Seq<char>, Seq<(Seq<char>, Seq<char>)>, Seq<char>),
    Seq<char>,
> {
    let capability = match input.field("capability"@) {
        Some(c) => c,
        None => SValueView::Null,
    };
    match integer_field(input, "entity_id"@) {
        None => Err("Missing entity_id"@),
        Some(id) => match text_field(input, "url"@) {
            None => Err("Missing url"@),
            Some(url) => Ok(
                (
                    capability,
                    id,
                    url,
                    request_headers(input),
                    match text_field(input, "body"@) {
                        Some(body) => body,
                        None => Seq::empty(),
                    },
                ),
            ),
        },
    }
}

/// Reads the headers of a request.
pub fn read_headers(input: &SValue) -> (r: Vec<(String, String)>)
    ensures
        header_views(r@) == request_headers(input@),
{
    let mut out: Vec<(String, String)> = Vec::new();
    let pairs = match input.get("headers") {
        Some(SValue::Object(pairs)) => pairs,
        _ => {
            assert(header_views(out@) =~= Seq::empty());
            return out;
        },
    };
    let ghost all = pairs_view(pairs@);
    proof {
        lemma_pairs_view(pairs@);
        assert(all.take(0) =~= Seq::empty());
        assert(header_views(out@) =~= Seq::empty());
    }
    let mut i: usize = 0;
    while i < pairs.len()
        invariant
            i <= pairs.len(),
            all == pairs_view(pairs@),
            all.len() == pairs.len(),
            forall|j: int| 0 <= j < pairs.len() ==> (#[trigger] all[j]) == (pairs@[j].0@, pairs@[j].1@),
            header_views(out@) == text_headers(all.take(i as int)),
        decreases pairs.len() - i,
    {
        proof {
            assert(all.take(i + 1).drop_last() =~= all.take(i as int));
            assert(all.take(i + 1).last() == all[i as int]);
        }
        let ghost before = header_views(out@);
        match &pairs[i].1 {
            SValue::String(v) => {
                out.push((pairs[i].0.clone(), v.clone()));
                proof {
                    assert(header_views(out@) =~= before.push((pairs@[i as int].0@, v@)));
                }
            },
            _ => {},
        }
        i += 1;
    }
    proof {
        assert(all.take(i as int) =~= all);
    }
    out
}

/// Reads the fields of a request.
pub fn parse_request(input: &SValue) -> (r: Result<NetRequest, String>)
    ensures
        match r {
            Ok(request) => parsed_request(input@) == Ok::<
                (SValueView, i64, Seq<char>, Seq<(Seq<char>, Seq<char>)>, Seq<char>),
                Seq<char>,
            >(
                (
                    request.capability@,
                    request.entity_id,
                    request.url@,
                    header_views(request.headers@),
                    request.body@,
                ),
            ),
            Err(e) => parsed_request(input@) == Err::<
                (SValueView, i64, Seq<char>, Seq<(Seq<char>, Seq<char>)>, Seq<char>),
                Seq<char>,
            >(e@),
        },
{
    let capability = match input.get("capability") {
        Some(c) => c.clone(),
        None => SValue::Null,
    };
    let entity_id = match get_integer(input, "entity_id") {
        Some(id) => id,
        None => {
            return Err("Missing entity_id".to_owned());
        },
    };
    let url = match get_text(input, "url") {
        Some(url) => url.to_owned(),
        None => {
            return Err("Missing url".to_owned());
        },
    };
    let body = match get_text(input, "body") {
        Some(body) => body.to_owned(),
        None => {
            let empty = String::new();
            assert(empty@ =~= Seq::empty());
            empty
        },
    };
    Ok(NetRequest { capability, entity_id, url, headers: read_headers(input), body })
}

/// The names of the plugin's functions, in the order of registration.
pub open spec fn function_names() -> Seq<Seq<char>> {
    seq!["net.get"@, "net.post"@]
}

/// The kind of capability that each of the plugin's functions takes.
pub open spec fn function_kinds() -> Seq<Seq<char>> {
    seq!["net"@, "net"@]
}

/// The names under which the arguments of each function travel.
pub open spec fn function_params() -> Seq<Seq<Seq<char>>> {
    seq![seq!["url"@, "headers"@], seq!["url"@, "headers"@, "body"@]]
}

/// Registers the plugin's two functions, which take a capability of kind
/// `net`. Where neither name was registered, they take the next two
/// slots, `net.get` first.
pub fn register_functions(registry: &mut PluginRegistry)
    ensures
        forall|other: Seq<char>, k: Seq<char>, p: Seq<Seq<char>>|
            !function_names().contains(other) && old(registry).has(other, k, p) ==> final(registry).has(
                other,
                k,
                p,
            ),
        final(registry).has("net.get"@, "net"@, seq!["url"@, "headers"@]),
        final(registry).has("net.post"@, "net"@, seq!["url"@, "headers"@, "body"@]),
        none_registered(old(registry).names(), function_names()) ==> {
            &&& final(registry).names() == old(registry).names() + function_names()
            &&& final(registry).kinds() == old(registry).kinds() + function_kinds()
            &&& final(registry).params() == old(registry).params() + function_params()
        },
{
    proof {
        reveal_strlit("net.get");
        reveal_strlit("net.post");
        assert("net.get"@.len() == 7);
        assert("net.post"@.len() == 8);
        assert(function_names()[0] == "net.get"@);
        assert(function_names()[1] == "net.post"@);
    }
    let mut p: Vec<String> = Vec::new();
    p.push("url".to_owned());
    p.push("headers".to_owned());
    assert(crate::registry::params_view(p@) =~= seq!["url"@, "headers"@]);
    registry.register_plugin_function("net.get", "net", p);
    proof {
        assert forall|other: Seq<char>, k: Seq<char>, p: Seq<Seq<char>>|
            !function_names().contains(other) && old(registry).has(
                other,
                k,
                p,
            ) implies registry.has(other, k, p) by {}
    }
    assert(registry.has("net.get"@, "net"@, seq!["url"@, "headers"@]));
    let mut p: Vec<String> = Vec::new();
    p.push("url".to_owned());
    p.push("headers".to_owned());
    p.push("body".to_owned());
    assert(crate::registry::params_view(p@) =~= seq!["url"@, "headers"@, "body"@]);
    registry.register_plugin_function("net.post", "net", p);
    proof {
        assert forall|other: Seq<char>, k: Seq<char>, p: Seq<Seq<char>>|
            !function_names().contains(other) && old(registry).has(
                other,
                k,
                p,
            ) implies registry.has(other, k, p) by {}
        if none_registered(old(registry).names(), function_names()) {
            assert(registry.names() =~= old(registry).names() + function_names());
            assert(registry.kinds() =~= old(registry).kinds() + function_kinds());
            assert(registry.params() =~= old(registry).params() + function_params());
        }
    }
    assert(registry.has("net.post"@, "net"@, seq!["url"@, "headers"@, "body"@]));
    assert(registry.has("net.get"@, "net"@, seq!["url"@, "headers"@]));
}

} // verus!
