//! The filesystem plugin's rules: what a request must hold, when a
//! capability grants a path, and what each function answers.
//!
//! The library touches no file. Canonical paths and the contents of files
//! are handed to it; it decides and builds the answers.

use crate::number::Number;
use crate::plugin::{
    check_owner, get_integer, get_scope, get_text, integer_field, object_with, owner_verdict,
    scope_field, single_field, text_field, view_of,
};
use crate::registry::{none_registered, PluginRegistry};
use crate::text::to_chars;
use crate::value::{lemma_items_view, lemma_pairs_view, pairs_view, SValue, SValueView};
use vstd::prelude::*;

verus! {

/// Whether the canonical path `target` is `allowed` itself or lies below
/// it: `allowed` is a prefix of `target` that ends where a component of
/// `target` ends.
pub open spec fn path_within(target: Seq<char>, allowed: Seq<char>) -> bool {
    allowed.is_prefix_of(target) && (target.len() == allowed.len() || (allowed.len() > 0
        && allowed.last() == '/') || target[allowed.len() as int] == '/')
}

/// Whether `capability` grants entity `entity_id` the path `requested`:
/// the entity owns the token, the token names a path, both paths have a
/// canonical form (`target` and `allowed`, `None` where resolving failed),
/// and the first lies within the second.
pub open spec fn access_verdict(
    capability: SValueView,
    entity_id: int,
    requested: Seq<char>,
    target: Option<Seq<char>>,
    allowed: Option<Seq<char>>,
) -> Result<(), Seq<char>> {
    match owner_verdict("fs"@, capability, entity_id) {
        Err(e) => Err(e),
        Ok(()) => match scope_field(capability, "path"@) {
            None => Err("fs: capability missing path parameter"@),
            Some(granted) => match target {
                None => Err("fs: path does not exist: "@ + requested),
                Some(t) => match allowed {
                    None => Err("fs: invalid allowed path: "@ + granted),
                    Some(a) => if path_within(t, a) {
                        Ok(())
                    } else {
                        Err(
                            "fs: path '"@ + requested + "' not allowed by capability (allowed: '"@
                                + granted + "')"@,
                        )
                    },
                },
            },
        },
    }
}

/// Whether the canonical path `target` is `allowed` or lies below it.
pub fn is_within(target: &str, allowed: &str) -> (r: bool)
    ensures
        r == path_within(target@, allowed@),
{
    let t = to_chars(target);
    let a = to_chars(allowed);
    if a.len() > t.len() {
        return false;
    }
    let mut i: usize = 0;
    while i < a.len()
        invariant
            i <= a.len() <= t.len(),
            a@ == allowed@,
            t@ == target@,
            forall|j: int| 0 <= j < i ==> t@[j] == a@[j],
        decreases a.len() - i,
    {
        if t[i] != a[i] {
            assert(!(allowed@ =~= target@.subrange(0, allowed@.len() as int)));
            return false;
        }
        i += 1;
    }
    assert(allowed@ =~= target@.subrange(0, allowed@.len() as int));
    t.len() == a.len() || (a.len() > 0 && a[a.len() - 1] == '/') || t[a.len()] == '/'
}

/// Validates that `capability` grants entity `entity_id` the path
/// `requested_path`. `resolved_target` and `resolved_allowed` are the
/// canonical forms of the requested path and of the path that the
/// capability names, `None` where a path could not be resolved.
pub fn validate_capability(
    capability: &SValue,
    entity_id: i64,
    requested_path: &str,
    resolved_target: Option<&str>,
    resolved_allowed: Option<&str>,
) -> (r: Result<(), String>)
    ensures
        match r {
            Ok(()) => access_verdict(
                capability@,
                entity_id as int,
                requested_path@,
                view_of(resolved_target),
                view_of(resolved_allowed),
            ) is Ok,
            Err(e) => access_verdict(
                capability@,
                entity_id as int,
                requested_path@,
                view_of(resolved_target),
                view_of(resolved_allowed),
            ) == Err::<(), Seq<char>>(e@),
        },
{
    match check_owner("fs", capability, entity_id) {
        Err(e) => {
            return Err(e);
        },
        Ok(()) => {},
    }
    let granted = match get_scope(capability, "path") {
        None => {
            return Err("fs: capability missing path parameter".to_owned());
        },
        Some(granted) => granted,
    };
    let target = match resolved_target {
        None => {
            let mut s = "fs: path does not exist: ".to_owned();
            s.append(requested_path);
            return Err(s);
        },
        Some(target) => target,
    };
    let allowed = match resolved_allowed {
        None => {
            let mut s = "fs: invalid allowed path: ".to_owned();
            s.append(granted);
            return Err(s);
        },
        Some(allowed) => allowed,
    };
    if is_within(target, allowed) {
        Ok(())
    } else {
        let mut s = "fs: path '".to_owned();
        s.append(requested_path);
        s.append("' not allowed by capability (allowed: '");
        s.append(granted);
        s.append("')");
        Err(s)
    }
}

/// Whether `capability` lets entity `entity_id` write the file
/// `requested`: the file's own path is granted or, where it is not, the
/// path of the directory that holds it, if there is one.
pub open spec fn write_verdict(
    capability: SValueView,
    entity_id: int,
    requested: Seq<char>,
    target: Option<Seq<char>>,
    parent: Option<Seq<char>>,
    parent_target: Option<Seq<char>>,
    allowed: Option<Seq<char>>,
) -> Result<(), Seq<char>> {
    match access_verdict(capability, entity_id, requested, target, allowed) {
        Ok(()) => Ok(()),
        Err(_) => match parent {
            Some(p) => access_verdict(capability, entity_id, p, parent_target, allowed),
            None => Err("fs.write: invalid path"@),
        },
    }
}

/// Validates a write to `requested_path`. `parent` is the directory that
/// holds the file, `None` where the path has none; the `resolved`
/// arguments are canonical forms as in `validate_capability`.
pub fn validate_write(
    capability: &SValue,
    entity_id: i64,
    requested_path: &str,
    resolved_target: Option<&str>,
    parent: Option<&str>,
    resolved_parent: Option<&str>,
    resolved_allowed: Option<&str>,
) -> (r: Result<(), String>)
    ensures
        match r {
            Ok(()) => write_verdict(
                capability@,
                entity_id as int,
                requested_path@,
                view_of(resolved_target),
                view_of(parent),
                view_of(resolved_parent),
                view_of(resolved_allowed),
            ) is Ok,
            Err(e) => write_verdict(
                capability@,
                entity_id as int,
                requested_path@,
                view_of(resolved_target),
                view_of(parent),
                view_of(resolved_parent),
                view_of(resolved_allowed),
            ) == Err::<(), Seq<char>>(e@),
        },
{
    match validate_capability(
        capability,
        entity_id,
        requested_path,
        resolved_target,
        resolved_allowed,
    ) {
        Ok(()) => Ok(()),
        Err(_) => match parent {
            Some(p) => validate_capability(
                capability,
                entity_id,
                p,
                resolved_parent,
                resolved_allowed,
            ),
            None => Err("fs.write: invalid path".to_owned()),
        },
    }
}

/// What a request to the filesystem plugin holds.
#[derive(Debug)]
pub struct FsRequest {
    pub capability: SValue,
    pub entity_id: i64,
    pub path: String,
    pub content: Option<String>,
}

/// What `parse_request` makes of a request: the request's fields, or the
/// name of the first that is missing.
pub open spec fn parsed_request(input: SValueView, with_content: bool) -> Result<
    (SValueView, i64, Seq<char>, Option<Seq<char>>),
    Seq<char>,
> {
    let capability = match input.field("capability"@) {
        Some(c) => c,
        None => SValueView::Null,
    };
    match integer_field(input, "entity_id"@) {
        None => Err("Missing entity_id"@),
        Some(id) => match text_field(input, "path"@) {
            None => Err("Missing path"@),
            Some(path) => if with_content {
                match text_field(input, "content"@) {
                    None => Err("Missing content"@),
                    Some(content) => Ok((capability, id, path, Some(content))),
                }
            } else {
                Ok((capability, id, path, None))
            },
        },
    }
}

/// Reads the fields of a request: the capability (null where there is
/// none), the id of the calling entity, the path and, where
/// `with_content` asks for it, the content to write.
pub fn parse_request(input: &SValue, with_content: bool) -> (r: Result<FsRequest, String>)
    ensures
        match r {
            Ok(request) => parsed_request(input@, with_content) == Ok::<
                (SValueView, i64, Seq<char>, Option<Seq<char>>),
                Seq<char>,
            >(
                (
                    request.capability@,
                    request.entity_id,
                    request.path@,
                    match request.content {
                        Some(c) => Some(c@),
                        None => None,
                    },
                ),
            ),
            Err(e) => parsed_request(input@, with_content) == Err::<
                (SValueView, i64, Seq<char>, Option<Seq<char>>),
                Seq<char>,
            >(e@),
        },
{
    let capability = match input.get("capability") {
        Some(c) => c.clone(),
        None => SValue::Null,
    };
    let entity_id = match get_integer(input, "entity_id") {
        Some(id) => id,
        None => {
            return Err("Missing entity_id".to_owned());
        },
    };
    let path = match get_text(input, "path") {
        Some(path) => path.to_owned(),
        None => {
            return Err("Missing path".to_owned());
        },
    };
    let content = if with_content {
        match get_text(input, "content") {
            Some(content) => Some(content.to_owned()),
            None => {
                return Err("Missing content".to_owned());
            },
        }
    } else {
        None
    };
    Ok(FsRequest { capability, entity_id, path, content })
}

/// What the filesystem plugin can be asked to do.
#[derive(Debug, Clone, Copy, PartialEq)]
pub enum FsOp {
    Read,
    Write,
    List,
    Stat,
    Exists,
    Mkdir,
    Remove,
}

/// An operation that the plugin may now carry out: which one, on which
/// path, and for a write with what content. The only way to one is
/// `permit`, so nothing touches the disk that was not validated first.
#[derive(Debug)]
pub struct Permit {
    op: FsOp,
    path: String,
    content: Option<String>,
}

impl Permit {
    /// The operation that is permitted.
    pub closed spec fn what(&self) -> FsOp {
        self.op
    }

    /// The path that it is permitted on.
    pub closed spec fn place(&self) -> Seq<char> {
        self.path@
    }

    /// The content to write, where the operation is a write.
    pub closed spec fn text(&self) -> Option<Seq<char>> {
        match self.content {
            Some(c) => Some(c@),
            None => None,
        }
    }

    /// The operation that is permitted.
    pub fn op(&self) -> (r: FsOp)
        ensures
            r == self.what(),
    {
        self.op
    }

    /// The path that it is permitted on.
    pub fn path(&self) -> (r: &str)
        ensures
            r@ == self.place(),
    {
        self.path.as_str()
    }

    /// The content to write; empty for any other operation.
    pub fn content(&self) -> (r: &str)
        ensures
            r@ == (match self.text() {
                Some(c) => c,
                None => Seq::empty(),
            }),
    {
        match &self.content {
            Some(c) => c.as_str(),
            None => {
                let empty = "";
                proof {
                    reveal_strlit("");
                    assert(empty@ =~= Seq::empty());
                }
                empty
            },
        }
    }
}

/// Decides whether the operation `op` that `request` asks for may be
/// carried out. Every operation takes the same check, and takes it before
/// anything is done: the calling entity owns the capability, and the path
/// lies within the path that the capability names. `resolved_target` is
/// the canonical form of the requested path, for a path that does not
/// exist yet that of the place where it would come to lie;
/// `resolved_allowed` is the canonical form of the capability's path;
/// `None` where a path could not be resolved.
pub fn permit(
    op: FsOp,
    request: FsRequest,
    resolved_target: Option<&str>,
    resolved_allowed: Option<&str>,
) -> (r: Result<Permit, String>)
    ensures
        match access_verdict(
            request.capability@,
            request.entity_id as int,
            request.path@,
            view_of(resolved_target),
            view_of(resolved_allowed),
        ) {
            Ok(()) => {
                &&& r is Ok
                &&& r->Ok_0.what() == op
                &&& r->Ok_0.place() == request.path@
                &&& r->Ok_0.text() == (match request.content {
                    Some(c) => Some(c@),
                    None => None,
                })
            },
            Err(e) => r is Err && r->Err_0@ == e,
        },
{
    match validate_capability(
        &request.capability,
        request.entity_id,
        request.path.as_str(),
        resolved_target,
        resolved_allowed,
    ) {
        Ok(()) => Ok(Permit { op, path: request.path, content: request.content }),
        Err(e) => Err(e),
    }
}

/// The answer of `fs.read`: the file's text under `content`.
pub fn read_response(content: &str) -> (r: SValue)
    ensures
        r@ == single_field("content"@, SValueView::String(content@)),
{
    object_with("content", SValue::String(content.to_owned()))
}

/// The answer of `fs.write`, `fs.mkdir` and `fs.remove`.
pub fn success_response() -> (r: SValue)
    ensures
        r@ == single_field("success"@, SValueView::Bool(true)),
{
    object_with("success", SValue::Bool(true))
}

/// The answer of `fs.exists`.
pub fn exists_response(exists: bool) -> (r: SValue)
    ensures
        r@ == single_field("exists"@, SValueView::Bool(exists)),
{
    object_with("exists", SValue::Bool(exists))
}

/// The names of a directory's entries as values.
pub open spec fn names_view(names: Seq<String>) -> Seq<SValueView> {
    Seq::new(names.len(), |i: int| SValueView::String(names[i]@))
}

/// The answer of `fs.list`: the names of the directory's entries under
/// `files`.
pub fn list_response(names: &Vec<String>) -> (r: SValue)
    ensures
        r@ == single_field("files"@, SValueView::Array(names_view(names@))),
{
    let mut items: Vec<SValue> = Vec::new();
    let mut i: usize = 0;
    while i < names.len()
        invariant
            i <= names.len(),
            items@.len() == i,
            forall|j: int| 0 <= j < i ==> items@[j]@ == SValueView::String(names@[j]@),
        decreases names.len() - i,
    {
        items.push(SValue::String(names[i].clone()));
        i += 1;
    }
    proof {
        lemma_items_view(items@);
        assert(crate::value::items_view(items@) =~= names_view(names@));
    }
    object_with("files", SValue::Array(items))
}

/// A size or a time in seconds as a number; null where it is beyond the
/// integers that a number holds.
pub open spec fn count_value(n: u64) -> SValueView {
    if n <= i64::MAX {
        SValueView::Number(Number::Int(n as i64))
    } else {
        SValueView::Null
    }
}

/// The answer of `fs.stat`.
pub open spec fn stat_value(size: u64, is_dir: bool, is_file: bool, modified: Option<u64>) -> SValueView {
    SValueView::Object(
        seq![
            ("size"@, count_value(size)),
            ("isDirectory"@, SValueView::Bool(is_dir)),
            ("isFile"@, SValueView::Bool(is_file)),
            (
                "modified"@,
                match modified {
                    Some(t) => count_value(t),
                    None => SValueView::Null,
                },
            ),
        ],
    )
}

fn count(n: u64) -> (r: SValue)
    ensures
        r@ == count_value(n),
{
    if n <= i64::MAX as u64 {
        SValue::Number(Number::Int(n as i64))
    } else {
        SValue::Null
    }
}

/// The answer of `fs.stat`: the size in bytes, whether the path is a
/// directory or a file, and the time of the last change in seconds since
/// the epoch, null where it is not known.
pub fn stat_response(size: u64, is_dir: bool, is_file: bool, modified: Option<u64>) -> (r: SValue)
    ensures
        r@ == stat_value(size, is_dir, is_file, modified),
{
    let mut pairs: Vec<(String, SValue)> = Vec::new();
    pairs.push(("size".to_owned(), count(size)));
    pairs.push(("isDirectory".to_owned(), SValue::Bool(is_dir)));
    pairs.push(("isFile".to_owned(), SValue::Bool(is_file)));
    let m = match modified {
        Some(t) => count(t),
        None => SValue::Null,
    };
    pairs.push(("modified".to_owned(), m));
    proof {
        lemma_pairs_view(pairs@);
        assert(pairs_view(pairs@) =~= stat_value(size, is_dir, is_file, modified)->Object_0);
    }
    SValue::Object(pairs)
}

fn one(name: &str) -> (r: Vec<String>)
    ensures
        r@.len() == 1,
        r@[0]@ == name@,
{
    let mut v: Vec<String> = Vec::new();
    v.push(name.to_owned());
    v
}

fn two(first: &str, second: &str) -> (r: Vec<String>)
    ensures
        r@.len() == 2,
        r@[0]@ == first@,
        r@[1]@ == second@,
{
    let mut v: Vec<String> = Vec::new();
    v.push(first.to_owned());
    v.push(second.to_owned());
    v
}

/// The kind of capability that each of the plugin's functions takes.
pub open spec fn function_kinds() -> Seq<Seq<char>> {
    seq![
        "fs.read"@,
        "fs.write"@,
        "fs.read"@,
        "fs.read"@,
        "fs.read"@,
        "fs.write"@,
        "fs.write"@,
    ]
}

/// The names under which the arguments of each function travel.
pub open spec fn function_params() -> Seq<Seq<Seq<char>>> {
    seq![
        seq!["path"@],
        seq!["path"@, "content"@],
        seq!["path"@],
        seq!["path"@],
        seq!["path"@],
        seq!["path"@],
        seq!["path"@],
    ]
}

/// The names of the plugin's functions, in the order of registration.
pub open spec fn function_names() -> Seq<Seq<char>> {
    seq![
        "fs.read"@,
        "fs.write"@,
        "fs.list"@,
        "fs.stat"@,
        "fs.exists"@,
        "fs.mkdir"@,
        "fs.remove"@,
    ]
}

/// The names of the plugin's functions differ from one another.
proof fn lemma_names_differ()
    ensures
        "fs.read"@ != "fs.write"@,
        "fs.read"@ != "fs.list"@,
        "fs.read"@ != "fs.stat"@,
        "fs.read"@ != "fs.exists"@,
        "fs.read"@ != "fs.mkdir"@,
        "fs.read"@ != "fs.remove"@,
        "fs.write"@ != "fs.list"@,
        "fs.write"@ != "fs.stat"@,
        "fs.write"@ != "fs.exists"@,
        "fs.write"@ != "fs.mkdir"@,
        "fs.write"@ != "fs.remove"@,
        "fs.list"@ != "fs.stat"@,
        "fs.list"@ != "fs.exists"@,
        "fs.list"@ != "fs.mkdir"@,
        "fs.list"@ != "fs.remove"@,
        "fs.stat"@ != "fs.exists"@,
        "fs.stat"@ != "fs.mkdir"@,
        "fs.stat"@ != "fs.remove"@,
        "fs.exists"@ != "fs.mkdir"@,
        "fs.exists"@ != "fs.remove"@,
        "fs.mkdir"@ != "fs.remove"@,
{
    reveal_strlit("fs.read");
    reveal_strlit("fs.write");
    reveal_strlit("fs.list");
    reveal_strlit("fs.stat");
    reveal_strlit("fs.exists");
    reveal_strlit("fs.mkdir");
    reveal_strlit("fs.remove");
    assert("fs.read"@.len() == 7 && "fs.read"@[3] == 'r');
    assert("fs.write"@.len() == 8 && "fs.write"@[3] == 'w');
    assert("fs.list"@.len() == 7 && "fs.list"@[3] == 'l');
    assert("fs.stat"@.len() == 7 && "fs.stat"@[3] == 's');
    assert("fs.exists"@.len() == 9 && "fs.exists"@[3] == 'e');
    assert("fs.mkdir"@.len() == 8 && "fs.mkdir"@[3] == 'm');
    assert("fs.remove"@.len() == 9 && "fs.remove"@[3] == 'r');
}

/// Registers the plugin's seven functions. Reading, listing, inspecting
/// and testing for existence take a capability of kind `fs.read`; writing,
/// making directories and removing take one of kind `fs.write`. Where
/// none of the names was registered, they take the next seven slots in
/// the order of `function_names`.
#[verifier::rlimit(100)]
pub fn register_functions(registry: &mut PluginRegistry)
    ensures
        forall|other: Seq<char>, k: Seq<char>, p: Seq<Seq<char>>|
            !function_names().contains(other) && old(registry).has(other, k, p) ==> final(registry).has(
                other,
                k,
                p,
            ),
        final(registry).has("fs.read"@, "fs.read"@, seq!["path"@]),
        final(registry).has("fs.write"@, "fs.write"@, seq!["path"@, "content"@]),
        final(registry).has("fs.list"@, "fs.read"@, seq!["path"@]),
        final(registry).has("fs.stat"@, "fs.read"@, seq!["path"@]),
        final(registry).has("fs.exists"@, "fs.read"@, seq!["path"@]),
        final(registry).has("fs.mkdir"@, "fs.write"@, seq!["path"@]),
        final(registry).has("fs.remove"@, "fs.write"@, seq!["path"@]),
        none_registered(old(registry).names(), function_names()) ==> {
            &&& final(registry).names() == old(registry).names() + function_names()
            &&& final(registry).kinds() == old(registry).kinds() + function_kinds()
            &&& final(registry).params() == old(registry).params() + function_params()
        },
{
    proof {
        lemma_names_differ();
        assert(function_names()[1] == "fs.write"@);
        assert(function_names()[2] == "fs.list"@);
        assert(function_names()[3] == "fs.stat"@);
        assert(function_names()[4] == "fs.exists"@);
        assert(function_names()[5] == "fs.mkdir"@);
        assert(function_names()[6] == "fs.remove"@);
    }
    let p = one("path");
    assert(crate::registry::params_view(p@) =~= seq!["path"@]);
    registry.register_plugin_function("fs.read", "fs.read", p);
    proof {
        assert(function_names()[0] == "fs.read"@);
        if none_registered(old(registry).names(), function_names()) {
            assert(registry.names() =~= old(registry).names() + function_names().take(1));
            assert(registry.kinds() =~= old(registry).kinds() + function_kinds().take(1));
            assert(registry.params() =~= old(registry).params() + function_params().take(1));
        }
        assert forall|other: Seq<char>, k: Seq<char>, p: Seq<Seq<char>>|
            !function_names().contains(other) && old(registry).has(
                other,
                k,
                p,
            ) implies registry.has(other, k, p) by {}
    }
    assert(registry.has("fs.read"@, "fs.read"@, seq!["path"@]));
    let p = two("path", "content");
    assert(crate::registry::params_view(p@) =~= seq!["path"@, "content"@]);
    registry.register_plugin_function("fs.write", "fs.write", p);
    proof {
        assert(function_names()[1] == "fs.write"@);
        if none_registered(old(registry).names(), function_names()) {
            assert(registry.names() =~= old(registry).names() + function_names().take(2));
            assert(registry.kinds() =~= old(registry).kinds() + function_kinds().take(2));
            assert(registry.params() =~= old(registry).params() + function_params().take(2));
        }
        assert forall|other: Seq<char>, k: Seq<char>, p: Seq<Seq<char>>|
            !function_names().contains(other) && old(registry).has(
                other,
                k,
                p,
            ) implies registry.has(other, k, p) by {}
    }
    assert(registry.has("fs.read"@, "fs.read"@, seq!["path"@]));
    assert(registry.has("fs.write"@, "fs.write"@, seq!["path"@, "content"@]));
    let p = one("path");
    assert(crate::registry::params_view(p@) =~= seq!["path"@]);
    registry.register_plugin_function("fs.list", "fs.read", p);
    proof {
        assert(function_names()[2] == "fs.list"@);
        if none_registered(old(registry).names(), function_names()) {
            assert(registry.names() =~= old(registry).names() + function_names().take(3));
            assert(registry.kinds() =~= old(registry).kinds() + function_kinds().take(3));
            assert(registry.params() =~= old(registry).params() + function_params().take(3));
        }
        assert forall|other: Seq<char>, k: Seq<char>, p: Seq<Seq<char>>|
            !function_names().contains(other) && old(registry).has(
                other,
                k,
                p,
            ) implies registry.has(other, k, p) by {}
    }
    assert(registry.has("fs.read"@, "fs.read"@, seq!["path"@]));
    assert(registry.has("fs.write"@, "fs.write"@, seq!["path"@, "content"@]));
    assert(registry.has("fs.list"@, "fs.read"@, seq!["path"@]));
    let p = one("path");
    assert(crate::registry::params_view(p@) =~= seq!["path"@]);
    registry.register_plugin_function("fs.stat", "fs.read", p);
    proof {
        assert(function_names()[3] == "fs.stat"@);
        if none_registered(old(registry).names(), function_names()) {
            assert(registry.names() =~= old(registry).names() + function_names().take(4));
            assert(registry.kinds() =~= old(registry).kinds() + function_kinds().take(4));
            assert(registry.params() =~= old(registry).params() + function_params().take(4));
        }
        assert forall|other: Seq<char>, k: Seq<char>, p: Seq<Seq<char>>|
            !function_names().contains(other) && old(registry).has(
                other,
                k,
                p,
            ) implies registry.has(other, k, p) by {}
    }
    assert(registry.has("fs.read"@, "fs.read"@, seq!["path"@]));
    assert(registry.has("fs.write"@, "fs.write"@, seq!["path"@, "content"@]));
    assert(registry.has("fs.list"@, "fs.read"@, seq!["path"@]));
    assert(registry.has("fs.stat"@, "fs.read"@, seq!["path"@]));
    let p = one("path");
    assert(crate::registry::params_view(p@) =~= seq!["path"@]);
    registry.register_plugin_function("fs.exists", "fs.read", p);
    proof {
        assert(function_names()[4] == "fs.exists"@);
        if none_registered(old(registry).names(), function_names()) {
            assert(registry.names() =~= old(registry).names() + function_names().take(5));
            assert(registry.kinds() =~= old(registry).kinds() + function_kinds().take(5));
            assert(registry.params() =~= old(registry).params() + function_params().take(5));
        }
        assert forall|other: Seq<char>, k: Seq<char>, p: Seq<Seq<char>>|
            !function_names().contains(other) && old(registry).has(
                other,
                k,
                p,
            ) implies registry.has(other, k, p) by {}
    }
    assert(registry.has("fs.read"@, "fs.read"@, seq!["path"@]));
    assert(registry.has("fs.write"@, "fs.write"@, seq!["path"@, "content"@]));
    assert(registry.has("fs.list"@, "fs.read"@, seq!["path"@]));
    assert(registry.has("fs.stat"@, "fs.read"@, seq!["path"@]));
    assert(registry.has("fs.exists"@, "fs.read"@, seq!["path"@]));
    let p = one("path");
    assert(crate::registry::params_view(p@) =~= seq!["path"@]);
    registry.register_plugin_function("fs.mkdir", "fs.write", p);
    proof {
        assert(function_names()[5] == "fs.mkdir"@);
        if none_registered(old(registry).names(), function_names()) {
            assert(registry.names() =~= old(registry).names() + function_names().take(6));
            assert(registry.kinds() =~= old(registry).kinds() + function_kinds().take(6));
            assert(registry.params() =~= old(registry).params() + function_params().take(6));
        }
        assert forall|other: Seq<char>, k: Seq<char>, p: Seq<Seq<char>>|
            !function_names().contains(other) && old(registry).has(
                other,
                k,
                p,
            ) implies registry.has(other, k, p) by {}
    }
    assert(registry.has("fs.read"@, "fs.read"@, seq!["path"@]));
    assert(registry.has("fs.write"@, "fs.write"@, seq!["path"@, "content"@]));
    assert(registry.has("fs.list"@, "fs.read"@, seq!["path"@]));
    assert(registry.has("fs.stat"@, "fs.read"@, seq!["path"@]));
    assert(registry.has("fs.exists"@, "fs.read"@, seq!["path"@]));
    assert(registry.has("fs.mkdir"@, "fs.write"@, seq!["path"@]));
    let p = one("path");
    assert(crate::registry::params_view(p@) =~= seq!["path"@]);
    registry.register_plugin_function("fs.remove", "fs.write", p);
    proof {
        assert(function_names()[6] == "fs.remove"@);
        if none_registered(old(registry).names(), function_names()) {
            assert(registry.names() =~= old(registry).names() + function_names().take(7));
            assert(registry.kinds() =~= old(registry).kinds() + function_kinds().take(7));
            assert(registry.params() =~= old(registry).params() + function_params().take(7));
            assert(function_names().take(7) =~= function_names());
            assert(function_kinds().take(7) =~= function_kinds());
            assert(function_params().take(7) =~= function_params());
        }
        assert forall|other: Seq<char>, k: Seq<char>, p: Seq<Seq<char>>|
            !function_names().contains(other) && old(registry).has(
                other,
                k,
                p,
            ) implies registry.has(other, k, p) by {}
    }
    assert(registry.has("fs.read"@, "fs.read"@, seq!["path"@]));
    assert(registry.has("fs.write"@, "fs.write"@, seq!["path"@, "content"@]));
    assert(registry.has("fs.list"@, "fs.read"@, seq!["path"@]));
    assert(registry.has("fs.stat"@, "fs.read"@, seq!["path"@]));
    assert(registry.has("fs.exists"@, "fs.read"@, seq!["path"@]));
    assert(registry.has("fs.mkdir"@, "fs.write"@, seq!["path"@]));
    assert(registry.has("fs.remove"@, "fs.write"@, seq!["path"@]));
}

} // verus!
