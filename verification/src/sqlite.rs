//! The SQL plugin's rules: when a capability grants a database, how JSON
//! parameters become SQL parameters, and how a row becomes a JSON object.
//!
//! The library opens no database. It decides on which path a connection is
//! kept, what is bound to a statement, and what is answered.

use crate::number::Number;
use crate::opcodes::merge_entries;
use crate::plugin::{
    check_owner, get_integer, get_scope, get_text, integer_field, owner_verdict, scope_field,
    text_field, view_of,
};
use crate::registry::{none_registered, PluginRegistry};
use crate::text::{push_char, str_eq};
use crate::value::{
    copy_items, items_view, lemma_pairs_view, pairs_view, set_entry, SValue, SValueView,
};
use vstd::prelude::*;

verus! {

/// Whether `capability` grants entity `entity_id` the database at
/// `requested`: the entity owns the token, the token names a path, both
/// paths have a canonical form (`target` and `allowed`, `None` where
/// resolving failed), and the two are the same.
pub open spec fn access_verdict(
    capability: SValueView,
    entity_id: int,
    requested: Seq<char>,
    target: Option<Seq<char>>,
    allowed: Option<Seq<char>>,
) -> Result<(), Seq<char>> {
    match owner_verdict("sqlite"@, capability, entity_id) {
        Err(e) => Err(e),
        Ok(()) => match scope_field(capability, "path"@) {
            None => Err("sqlite: capability missing path parameter"@),
            Some(granted) => match target {
                None => Err("sqlite: database path does not exist: "@ + requested),
                Some(t) => match allowed {
                    None => Err("sqlite: invalid allowed path: "@ + granted),
                    Some(a) => if t == a {
                        Ok(())
                    } else {
                        Err("sqlite: path '"@ + requested + "' not allowed by capability"@)
                    },
                },
            },
        },
    }
}

/// Validates that `capability` grants entity `entity_id` the database at
/// `requested_path`. `resolved_target` and `resolved_allowed` are the
/// canonical forms of the requested path and of the path that the
/// capability names, `None` where a path could not be resolved.
pub fn validate_capability(
    capability: &SValue,
    entity_id: i64,
    requested_path: &str,
    resolved_target: Option<&str>,
    resolved_allowed: Option<&str>,
) -> (r: Result<(), String>)
    ensures
        match r {
            Ok(()) => access_verdict(
                capability@,
                entity_id as int,
                requested_path@,
                view_of(resolved_target),
                view_of(resolved_allowed),
            ) is Ok,
            Err(e) => access_verdict(
                capability@,
                entity_id as int,
                requested_path@,
                view_of(resolved_target),
                view_of(resolved_allowed),
            ) == Err::<(), Seq<char>>(e@),
        },
{
    match check_owner("sqlite", capability, entity_id) {
        Err(e) => {
            return Err(e);
        },
        Ok(()) => {},
    }
    let granted = match get_scope(capability, "path") {
        None => {
            return Err("sqlite: capability missing path parameter".to_owned());
        },
        Some(granted) => granted,
    };
    let target = match resolved_target {
        None => {
            let mut s = "sqlite: database path does not exist: ".to_owned();
            s.append(requested_path);
            return Err(s);
        },
        Some(target) => target,
    };
    let allowed = match resolved_allowed {
        None => {
            let mut s = "sqlite: invalid allowed path: ".to_owned();
            s.append(granted);
            return Err(s);
        },
        Some(allowed) => allowed,
    };
    if str_eq(target, allowed) {
        Ok(())
    } else {
        let mut s = "sqlite: path '".to_owned();
        s.append(requested_path);
        s.append("' not allowed by capability");
        Err(s)
    }
}

/// What is bound to a placeholder of a statement. A real is a double,
/// given by its bit pattern.
#[derive(Debug, PartialEq)]
pub enum SqlParam {
    Null,
    Bool(bool),
    Integer(i64),
    Real(u64),
    Text(String),
}

/// The mathematical value of an `SqlParam`.
pub ghost enum SqlParamView {
    Null,
    Bool(bool),
    Integer(i64),
    Real(u64),
    Text(Seq<char>),
}

impl View for SqlParam {
    type V = SqlParamView;

    open spec fn view(&self) -> SqlParamView {
        match self {
            SqlParam::Null => SqlParamView::Null,
            SqlParam::Bool(b) => SqlParamView::Bool(*b),
            SqlParam::Integer(n) => SqlParamView::Integer(*n),
            SqlParam::Real(bits) => SqlParamView::Real(*bits),
            SqlParam::Text(s) => SqlParamView::Text(s@),
        }
    }
}

/// The SQL parameter that a JSON value is bound as: null, booleans,
/// numbers and strings as themselves, anything else as null.
pub open spec fn param_of(v: SValueView) -> SqlParamView {
    match v {
        SValueView::Bool(b) => SqlParamView::Bool(b),
        SValueView::Number(Number::Int(n)) => SqlParamView::Integer(n),
        SValueView::Number(Number::Float(bits)) => SqlParamView::Real(bits),
        SValueView::String(s) => SqlParamView::Text(s),
        _ => SqlParamView::Null,
    }
}

/// The SQL parameter that `v` is bound as.
pub fn to_sql_param(v: &SValue) -> (r: SqlParam)
    ensures
        r@ == param_of(v@),
{
    match v {
        SValue::Bool(b) => SqlParam::Bool(*b),
        SValue::Number(Number::Int(n)) => SqlParam::Integer(*n),
        SValue::Number(Number::Float(bits)) => SqlParam::Real(*bits),
        SValue::String(s) => SqlParam::Text(s.clone()),
        _ => SqlParam::Null,
    }
}

/// The SQL parameters that `params` are bound as, in order.
pub fn to_sql_params(params: &Vec<SValue>) -> (r: Vec<SqlParam>)
    ensures
        r@.len() == params@.len(),
        forall|i: int| 0 <= i < params@.len() ==> (#[trigger] r@[i])@ == param_of(params@[i]@),
{
    let mut out: Vec<SqlParam> = Vec::new();
    let mut i: usize = 0;
    while i < params.len()
        invariant
            i <= params.len(),
            out@.len() == i,
            forall|j: int| 0 <= j < i ==> (#[trigger] out@[j])@ == param_of(params@[j]@),
        decreases params.len() - i,
    {
        out.push(to_sql_param(&params[i]));
        i += 1;
    }
    out
}

/// A column's value in a row. A real is a double, given by its bit
/// pattern.
#[derive(Debug, PartialEq)]
pub enum SqlValue {
    Null,
    Integer(i64),
    Real(u64),
    Text(String),
    Blob(Vec<u8>),
}

/// The character that stands for the six-bit number `n` in base64: the
/// capital letters from code 65, the small letters from code 97, the
/// digits from code 48, then `+` and `/`.
pub open spec fn base64_char(n: int) -> char {
    if n < 26 {
        (65 + n) as u8 as char
    } else if n < 52 {
        (97 + n - 26) as u8 as char
    } else if n < 62 {
        (48 + n - 52) as u8 as char
    } else if n == 62 {
        '+'
    } else {
        '/'
    }
}

/// The base64 encoding of `data`, with `=` padding.
pub open spec fn base64(data: Seq<u8>) -> Seq<char>
    decreases data.len(),
{
    if data.len() == 0 {
        Seq::empty()
    } else if data.len() == 1 {
        seq![base64_char(data[0] as int / 4), base64_char((data[0] as int % 4) * 16), '=', '=']
    } else if data.len() == 2 {
        seq![
            base64_char(data[0] as int / 4),
            base64_char((data[0] as int % 4) * 16 + data[1] as int / 16),
            base64_char((data[1] as int % 16) * 4),
            '=',
        ]
    } else {
        seq![
            base64_char(data[0] as int / 4),
            base64_char((data[0] as int % 4) * 16 + data[1] as int / 16),
            base64_char((data[1] as int % 16) * 4 + data[2] as int / 64),
            base64_char(data[2] as int % 64),
        ] + base64(data.skip(3))
    }
}

fn sextet(n: u8) -> (c: char)
    requires
        n < 64,
    ensures
        c == base64_char(n as int),
{
    if n < 26 {
        (65u8 + n) as char
    } else if n < 52 {
        (97u8 + (n - 26)) as char
    } else if n < 62 {
        (48u8 + (n - 52)) as char
    } else if n == 62 {
        '+'
    } else {
        '/'
    }
}

/// The base64 encoding of `data`.
pub fn base64_encode(data: &[u8]) -> (r: String)
    ensures
        r@ == base64(data@),
{
    let mut result = String::new();
    let mut i: usize = 0;
    proof {
        assert(data@.skip(0) =~= data@);
    }
    while i < data.len()
        invariant
            i <= data.len(),
            result@ + base64(data@.skip(i as int)) == base64(data@),
        decreases data.len() - i,
    {
        let ghost rest = data@.skip(i as int);
        let ghost before = result@;
        let b0 = data[i];
        let remaining = data.len() - i;
        assert(rest[0] == b0);
        assert((b0 >> 2) == b0 / 4 && (b0 & 0x03) << 4 == (b0 % 4) * 16 && (b0 >> 2) < 64 && ((b0
            & 0x03) << 4) < 64) by (bit_vector);
        push_char(&mut result, sextet(b0 >> 2));
        if remaining == 1 {
            push_char(&mut result, sextet((b0 & 0x03) << 4));
            push_char(&mut result, '=');
            push_char(&mut result, '=');
            proof {
                assert(result@ =~= before + base64(rest));
                assert(data@.skip(i + 1) =~= Seq::empty());
                assert(result@ + base64(data@.skip(i + 1)) =~= result@);
            }
            i += 1;
        } else {
            let b1 = data[i + 1];
            assert(rest[1] == b1);
            assert((((b0 & 0x03) << 4) | (b1 >> 4)) == (b0 % 4) * 16 + b1 / 16 && (((b0 & 0x03) << 4)
                | (b1 >> 4)) < 64 && (b1 & 0x0f) << 2 == (b1 % 16) * 4 && ((b1 & 0x0f) << 2) < 64)
                by (bit_vector);
            push_char(&mut result, sextet(((b0 & 0x03) << 4) | (b1 >> 4)));
            if remaining == 2 {
                push_char(&mut result, sextet((b1 & 0x0f) << 2));
                push_char(&mut result, '=');
                proof {
                    assert(result@ =~= before + base64(rest));
                    assert(data@.skip(i + 2) =~= Seq::empty());
                    assert(result@ + base64(data@.skip(i + 2)) =~= result@);
                }
                i += 2;
            } else {
                let b2 = data[i + 2];
                assert(rest[2] == b2);
                assert((((b1 & 0x0f) << 2) | (b2 >> 6)) == (b1 % 16) * 4 + b2 / 64 && (((b1 & 0x0f)
                    << 2) | (b2 >> 6)) < 64 && (b2 & 0x3f) == b2 % 64 && (b2 & 0x3f) < 64)
                    by (bit_vector);
                push_char(&mut result, sextet(((b1 & 0x0f) << 2) | (b2 >> 6)));
                push_char(&mut result, sextet(b2 & 0x3f));
                proof {
                    assert(rest.skip(3) =~= data@.skip(i + 3));
                    assert(result@ + base64(data@.skip(i + 3)) =~= before + base64(rest));
                }
                i += 3;
            }
        }
    }
    proof {
        assert(data@.skip(i as int) =~= Seq::empty());
        assert(result@ + Seq::<char>::empty() =~= result@);
    }
    result
}

/// The JSON value of a column: integers and reals as numbers, text as a
/// string, a blob as the string of its base64 encoding.
pub open spec fn column_value(v: SqlValue) -> SValueView {
    match v {
        SqlValue::Null => SValueView::Null,
        SqlValue::Integer(n) => SValueView::Number(Number::Int(n)),
        SqlValue::Real(bits) => SValueView::Number(Number::Float(bits)),
        SqlValue::Text(s) => SValueView::String(s@),
        SqlValue::Blob(bytes) => SValueView::String(base64(bytes@)),
    }
}

/// The JSON value of a column.
pub fn column_to_value(v: &SqlValue) -> (r: SValue)
    ensures
        r@ == column_value(*v),
{
    match v {
        SqlValue::Null => SValue::Null,
        SqlValue::Integer(n) => SValue::Number(Number::Int(*n)),
        SqlValue::Real(bits) => SValue::Number(Number::Float(*bits)),
        SqlValue::Text(s) => SValue::String(s.clone()),
        SqlValue::Blob(bytes) => SValue::String(base64_encode(bytes.as_slice())),
    }
}

/// The pairs of a row: each column's name with the column's value.
pub open spec fn row_entries(names: Seq<String>, row: Seq<SqlValue>) -> Seq<(Seq<char>, SValueView)> {
    Seq::new(names.len(), |i: int| (names[i]@, column_value(row[i])))
}

/// A row as a JSON object: each column's value under the column's name,
/// the last column of a name counting.
pub fn row_to_value(names: &Vec<String>, row: &Vec<SqlValue>) -> (r: SValue)
    requires
        names.len() == row.len(),
    ensures
        r@ == SValueView::Object(merge_entries(Seq::empty(), row_entries(names@, row@))),
{
    let mut fields: Vec<(String, SValue)> = Vec::new();
    let ghost all = row_entries(names@, row@);
    proof {
        lemma_pairs_view(fields@);
        assert(pairs_view(fields@) =~= Seq::empty());
        assert(all.take(0) =~= Seq::empty());
    }
    let mut i: usize = 0;
    while i < names.len()
        invariant
            i <= names.len(),
            names.len() == row.len(),
            all == row_entries(names@, row@),
            pairs_view(fields@) == merge_entries(Seq::empty(), all.take(i as int)),
        decreases names.len() - i,
    {
        proof {
            assert(all.take(i + 1).drop_last() =~= all.take(i as int));
            assert(all.take(i + 1).last() == all[i as int]);
        }
        set_entry(&mut fields, names[i].as_str(), column_to_value(&row[i]));
        i += 1;
    }
    proof {
        assert(all.take(i as int) =~= all);
    }
    SValue::Object(fields)
}

/// The database paths on which a connection is kept. A path's slot is its
/// position.
pub struct ConnectionPool {
    paths: Vec<String>,
}

/// The slot of `path` among `paths`.
pub open spec fn connection_slot(paths: Seq<Seq<char>>, path: Seq<char>) -> Option<int>
    decreases paths.len(),
{
    if paths.len() == 0 {
        None
    } else if paths.last() == path {
        Some(paths.len() - 1)
    } else {
        connection_slot(paths.drop_last(), path)
    }
}

impl ConnectionPool {
    /// The paths of the pool, by slot.
    pub closed spec fn paths(&self) -> Seq<Seq<char>> {
        Seq::new(self.paths@.len(), |i: int| self.paths@[i]@)
    }

    /// The slot on which the connection to `db_path` is kept, if one is.
    pub fn lookup(&self, db_path: &str) -> (r: Option<usize>)
        ensures
            match r {
                Some(i) => connection_slot(self.paths(), db_path@) == Some(i as int) && i
                    < self.paths().len(),
                None => connection_slot(self.paths(), db_path@) is None,
            },
    {
        let ghost all = self.paths();
        let mut i: usize = self.paths.len();
        proof {
            assert(all.take(all.len() as int) =~= all);
        }
        while i > 0
            invariant
                i <= self.paths.len(),
                all == self.paths(),
                all.len() == self.paths.len(),
                connection_slot(all, db_path@) == connection_slot(all.take(i as int), db_path@),
            decreases i,
        {
            i -= 1;
            proof {
                assert(all.take(i + 1).drop_last() =~= all.take(i as int));
                assert(all.take(i + 1).last() == self.paths@[i as int]@);
            }
            if str_eq(self.paths[i].as_str(), db_path) {
                return Some(i);
            }
        }
        None
    }

    /// The slot on which the connection to `db_path` is kept, and whether
    /// the connection is yet to be opened: a path that is new to the pool
    /// takes the next slot.
    pub fn get_connection(&mut self, db_path: &str) -> (r: (usize, bool))
        ensures
            match connection_slot(old(self).paths(), db_path@) {
                Some(i) => r == (i as usize, false) && final(self).paths() == old(self).paths(),
                None => r == (old(self).paths().len() as usize, true) && final(self).paths()
                    == old(self).paths().push(db_path@),
            },
            connection_slot(final(self).paths(), db_path@) == Some(r.0 as int),
    {
        match self.lookup(db_path) {
            Some(i) => (i, false),
            None => {
                self.paths.push(db_path.to_owned());
                proof {
                    assert(self.paths() =~= old(self).paths().push(db_path@));
                    assert(self.paths().drop_last() =~= old(self).paths());
                }
                (self.paths.len() - 1, true)
            },
        }
    }
}

/// A pool without connections.
pub fn init_connections() -> (r: ConnectionPool)
    ensures
        r.paths() == Seq::<Seq<char>>::empty(),
{
    let r = ConnectionPool { paths: Vec::new() };
    proof {
        assert(r.paths() =~= Seq::empty());
    }
    r
}

/// The answer of `sqlite.query`: the rows, in order.
pub fn query_response(rows: Vec<SValue>) -> (r: SValue)
    ensures
        r@ == SValueView::Array(items_view(rows@)),
{
    SValue::Array(rows)
}

/// The answer of `sqlite.execute`: the number of rows that the statement
/// changed.
pub fn execute_response(rows_affected: i64) -> (r: SValue)
    ensures
        r@ == SValueView::Number(Number::Int(rows_affected)),
{
    SValue::Number(Number::Int(rows_affected))
}

/// What a request to the SQL plugin holds.
#[derive(Debug)]
pub struct SqlRequest {
    pub capability: SValue,
    pub entity_id: i64,
    pub path: String,
    pub query: String,
    pub params: Vec<SValue>,
}

/// What `parse_request` makes of a request: the capability (null where
/// there is none), the id of the calling entity, the path of the
/// database, the statement and its parameters (none where the request
/// holds no list of them); or the name of the first field that is
/// missing.
pub open spec fn parsed_request(input: SValueView) -> Result<
    (SValueView, i64, Seq<char>, Seq<char>, Seq<SValueView>),
    Seq<char>,
> {
    let capability = match input.field("capability"@) {
        Some(c) => c,
        None => SValueView::Null,
    };
    match integer_field(input, "entity_id"@) {
        None => Err("Missing entity_id"@),
        Some(id) => match text_field(input, "path"@) {
            None => Err("Missing path"@),
            Some(path) => match text_field(input, "query"@) {
                None => Err("Missing query"@),
                Some(query) => Ok(
                    (
                        capability,
                        id,
                        path,
                        query,
                        match input.field("params"@) {
                            Some(SValueView::Array(items)) => items,
                            _ => Seq::empty(),
                        },
                    ),
                ),
            },
        },
    }
}

/// Reads the fields of a request.
pub fn parse_request(input: &SValue) -> (r: Result<SqlRequest, String>)
    ensures
        match r {
            Ok(request) => parsed_request(input@) == Ok::<
                (SValueView, i64, Seq<char>, Seq<char>, Seq<SValueView>),
                Seq<char>,
            >(
                (
                    request.capability@,
                    request.entity_id,
                    request.path@,
                    request.query@,
                    items_view(request.params@),
                ),
            ),
            Err(e) => parsed_request(input@) == Err::<
                (SValueView, i64, Seq<char>, Seq<char>, Seq<SValueView>),
                Seq<char>,
            >(e@),
        },
{
    let capability = match input.get("capability") {
        Some(c) => c.clone(),
        None => SValue::Null,
    };
    let entity_id = match get_integer(input, "entity_id") {
        Some(id) => id,
        None => {
            return Err("Missing entity_id".to_owned());
        },
    };
    let path = match get_text(input, "path") {
        Some(path) => path.to_owned(),
        None => {
            return Err("Missing path".to_owned());
        },
    };
    let query = match get_text(input, "query") {
        Some(query) => query.to_owned(),
        None => {
            return Err("Missing query".to_owned());
        },
    };
    let params = match input.get("params") {
        Some(SValue::Array(items)) => copy_items(items),
        _ => {
            let empty: Vec<SValue> = Vec::new();
            assert(items_view(empty@) =~= Seq::empty());
            empty
        },
    };
    Ok(SqlRequest { capability, entity_id, path, query, params })
}

/// The names of the plugin's functions, in the order of registration.
pub open spec fn function_names() -> Seq<Seq<char>> {
    seq!["sqlite.query"@, "sqlite.execute"@]
}

/// The kind of capability that each of the plugin's functions takes.
pub open spec fn function_kinds() -> Seq<Seq<char>> {
    seq!["sqlite"@, "sqlite"@]
}

/// The names under which the arguments of each function travel.
pub open spec fn function_params() -> Seq<Seq<Seq<char>>> {
    seq![seq!["path"@, "query"@, "params"@], seq!["path"@, "query"@, "params"@]]
}

/// Registers the plugin's two functions, which take a capability of kind
/// `sqlite`. Where neither name was registered, they take the next two
/// slots, `sqlite.query` first.
pub fn register_functions(registry: &mut PluginRegistry)
    ensures
        forall|other: Seq<char>, k: Seq<char>, p: Seq<Seq<char>>|
            !function_names().contains(other) && old(registry).has(other, k, p) ==> final(registry).has(
                other,
                k,
                p,
            ),
        final(registry).has("sqlite.query"@, "sqlite"@, seq!["path"@, "query"@, "params"@]),
        final(registry).has("sqlite.execute"@, "sqlite"@, seq!["path"@, "query"@, "params"@]),
        none_registered(old(registry).names(), function_names()) ==> {
            &&& final(registry).names() == old(registry).names() + function_names()
            &&& final(registry).kinds() == old(registry).kinds() + function_kinds()
            &&& final(registry).params() == old(registry).params() + function_params()
        },
{
    proof {
        assert(function_names()[1] == "sqlite.execute"@);
        reveal_strlit("sqlite.query");
        reveal_strlit("sqlite.execute");
        assert("sqlite.query"@.len() == 12);
        assert("sqlite.execute"@.len() == 14);
    }
    let mut p: Vec<String> = Vec::new();
    p.push("path".to_owned());
    p.push("query".to_owned());
    p.push("params".to_owned());
    assert(crate::registry::params_view(p@) =~= seq!["path"@, "query"@, "params"@]);
    registry.register_plugin_function("sqlite.query", "sqlite", p);
    proof {
        assert(function_names()[0] == "sqlite.query"@);
        assert forall|other: Seq<char>, k: Seq<char>, p: Seq<Seq<char>>|
            !function_names().contains(other) && old(registry).has(
                other,
                k,
                p,
            ) implies registry.has(other, k, p) by {}
    }
    assert(registry.has("sqlite.query"@, "sqlite"@, seq!["path"@, "query"@, "params"@]));
    let mut p: Vec<String> = Vec::new();
    p.push("path".to_owned());
    p.push("query".to_owned());
    p.push("params".to_owned());
    assert(crate::registry::params_view(p@) =~= seq!["path"@, "query"@, "params"@]);
    registry.register_plugin_function("sqlite.execute", "sqlite", p);
    proof {
        if none_registered(old(registry).names(), function_names()) {
            assert(registry.names() =~= old(registry).names() + function_names());
            assert(registry.kinds() =~= old(registry).kinds() + function_kinds());
            assert(registry.params() =~= old(registry).params() + function_params());
        }
        assert forall|other: Seq<char>, k: Seq<char>, p: Seq<Seq<char>>|
            !function_names().contains(other) && old(registry).has(
                other,
                k,
                p,
            ) implies registry.has(other, k, p) by {}
    }
    assert(registry.has("sqlite.execute"@, "sqlite"@, seq!["path"@, "query"@, "params"@]));
    assert(registry.has("sqlite.query"@, "sqlite"@, seq!["path"@, "query"@, "params"@]));
}

} // verus!
