//! The TypeScript front end's rules: which opcode an operator stands for,
//! and what a string literal means.
//!
//! The library parses no TypeScript. It is handed the pieces of a syntax
//! tree and says what they become.

use crate::ir::{lemma_list_view, list_view, SExpr, SExprView};
use crate::syntax::{lemma_nodes_view, NodeView, SyntaxNode};
use crate::text::{from_chars, str_eq, to_chars};
use vstd::prelude::*;

verus! {

/// Why a source text was not transpiled.
#[derive(Debug, PartialEq)]
pub enum TranspileError {
    /// The source is not well-formed.
    Parse(String),
    /// The source uses syntax that has no counterpart.
    Unsupported(String),
    /// A node of another kind was expected.
    UnexpectedNode { expected: String, got: String },
}

impl TranspileError {
    /// The text of `message`.
    pub open spec fn message_text(self) -> Seq<char> {
        match self {
            TranspileError::Parse(text) => "parse error: "@ + text@,
            TranspileError::Unsupported(text) => "unsupported syntax: "@ + text@,
            TranspileError::UnexpectedNode { expected, got } => "expected "@ + expected@ + ", got "@
                + got@,
        }
    }

    /// A sentence that describes the error.
    pub fn message(&self) -> (r: String)
        ensures
            r@ == self.message_text(),
    {
        match self {
            TranspileError::Parse(text) => {
                let mut s = "parse error: ".to_owned();
                s.append(text.as_str());
                s
            },
            TranspileError::Unsupported(text) => {
                let mut s = "unsupported syntax: ".to_owned();
                s.append(text.as_str());
                s
            },
            TranspileError::UnexpectedNode { expected, got } => {
                let mut s = "expected ".to_owned();
                s.append(expected.as_str());
                s.append(", got ");
                s.append(got.as_str());
                s
            },
        }
    }
}

/// The mathematical value of a `TranspileError`.
pub ghost enum TranspileErrorView {
    Parse(Seq<char>),
    Unsupported(Seq<char>),
    UnexpectedNode { expected: Seq<char>, got: Seq<char> },
}

impl View for TranspileError {
    type V = TranspileErrorView;

    open spec fn view(&self) -> TranspileErrorView {
        match self {
            TranspileError::Parse(text) => TranspileErrorView::Parse(text@),
            TranspileError::Unsupported(text) => TranspileErrorView::Unsupported(text@),
            TranspileError::UnexpectedNode { expected, got } => TranspileErrorView::UnexpectedNode {
                expected: expected@,
                got: got@,
            },
        }
    }
}

/// What a node becomes: an expression, or the reason why it becomes none.
pub type Transpiled = Result<SExprView, TranspileErrorView>;

/// The call of `name` on `args`.
pub open spec fn call_of(name: Seq<char>, args: Seq<SExprView>) -> SExprView {
    SExprView::List(seq![SExprView::String(name)] + args)
}

/// The reference to the variable `name`.
pub open spec fn variable(name: Seq<char>) -> SExprView {
    call_of("std.var"@, seq![SExprView::String(name)])
}

/// One expression as it is, several as a sequence.
pub open spec fn one_or_sequence(exprs: Seq<SExprView>) -> SExprView {
    if exprs.len() == 1 {
        exprs[0]
    } else {
        call_of("std.seq"@, exprs)
    }
}

/// The error for a node of kind `kind` that lacks the child `field`.
pub open spec fn missing(kind: Seq<char>, field: Seq<char>) -> Transpiled {
    Err(TranspileErrorView::Parse(kind + " missing "@ + field))
}

/// What the tree with root `root` becomes: the statement, if there is
/// one, else the sequence of the statements. A tree with a syntax error
/// becomes nothing.
pub open spec fn program(root: NodeView) -> Transpiled {
    if root.error {
        Err(TranspileErrorView::Parse("syntax error in source"@))
    } else {
        match named_children(root, 0, Seq::empty(), false) {
            Ok(statements) => Ok(one_or_sequence(statements)),
            Err(e) => Err(e),
        }
    }
}

/// What the node `n` becomes.
pub open spec fn transpiled(n: NodeView) -> Transpiled
    decreases n, 2int, 0int,
{
    if n.kind == "number"@ {
        match n.number {
            Some(bits) => Ok(SExprView::Number(bits)),
            None => Err(TranspileErrorView::Parse("invalid number: "@ + n.text)),
        }
    } else if n.kind == "string"@ {
        Ok(SExprView::String(literal_text(n.text)))
    } else if n.kind == "true"@ {
        Ok(SExprView::Bool(true))
    } else if n.kind == "false"@ {
        Ok(SExprView::Bool(false))
    } else if n.kind == "null"@ || n.kind == "undefined"@ || n.kind == "comment"@ {
        Ok(SExprView::Null)
    } else if n.kind == "identifier"@ {
        Ok(variable(n.text))
    } else if n.kind == "binary_expression"@ {
        binary_expr(n)
    } else if n.kind == "unary_expression"@ {
        unary_expr(n)
    } else if n.kind == "parenthesized_expression"@ {
        match first_named_child(n) {
            Some(r) => r,
            None => Err(TranspileErrorView::Parse("empty parenthesized expression"@)),
        }
    } else if n.kind == "call_expression"@ {
        call_expr(n)
    } else if n.kind == "member_expression"@ {
        member_expr(n)
    } else if n.kind == "subscript_expression"@ {
        subscript_expr(n)
    } else if n.kind == "array"@ {
        match named_children(n, 0, Seq::empty(), false) {
            Ok(elements) => Ok(call_of("list.new"@, elements)),
            Err(e) => Err(e),
        }
    } else if n.kind == "object"@ {
        match object_pairs(n, 0, Seq::empty()) {
            Ok(pairs) => Ok(call_of("obj.new"@, pairs)),
            Err(e) => Err(e),
        }
    } else if n.kind == "arrow_function"@ {
        arrow_function(n)
    } else if n.kind == "ternary_expression"@ {
        ternary(n)
    } else if n.kind == "expression_statement"@ || n.kind == "else_clause"@ {
        match first_named_child(n) {
            Some(r) => r,
            None => Ok(SExprView::Null),
        }
    } else if n.kind == "lexical_declaration"@ || n.kind == "variable_declaration"@ {
        match declarators(n, 0, Seq::empty()) {
            Ok(declarations) => Ok(one_or_sequence(declarations)),
            Err(e) => Err(e),
        }
    } else if n.kind == "if_statement"@ {
        if_statement(n)
    } else if n.kind == "return_statement"@ {
        returned(n, 0)
    } else if n.kind == "statement_block"@ {
        match named_children(n, 0, Seq::empty(), true) {
            Ok(statements) => if statements.len() == 0 {
                Ok(SExprView::Null)
            } else {
                Ok(one_or_sequence(statements))
            },
            Err(e) => Err(e),
        }
    } else {
        Err(TranspileErrorView::Unsupported("node type '"@ + n.kind + "': "@ + n.text))
    }
}

/// What the first named child of `n` becomes; `None` where `n` has none.
pub open spec fn first_named_child(n: NodeView) -> Option<Transpiled>
    decreases n, 1int, 0int,
{
    let i = n.first_named();
    if 0 <= i < n.children.len() {
        Some(transpiled(n.children[i]))
    } else {
        None
    }
}

/// What the named children of `parent` from position `from` on become,
/// after `acc`: each in order, the first failure ending it. With
/// `skip_null`, a child that becomes null is left out.
pub open spec fn named_children(parent: NodeView, from: int, acc: Seq<SExprView>, skip_null: bool) -> Result<
    Seq<SExprView>,
    TranspileErrorView,
>
    decreases parent, 1int, parent.children.len() - from,
{
    if from < 0 || from >= parent.children.len() {
        Ok(acc)
    } else if parent.children[from].named {
        match transpiled(parent.children[from]) {
            Err(e) => Err(e),
            Ok(v) => named_children(
                parent,
                from + 1,
                if skip_null && v is Null {
                    acc
                } else {
                    acc.push(v)
                },
                skip_null,
            ),
        }
    } else {
        named_children(parent, from + 1, acc, skip_null)
    }
}

/// A binary expression: the opcode of the operator on both operands.
pub open spec fn binary_expr(n: NodeView) -> Transpiled
    decreases n, 1int, 0int,
{
    let l = n.field("left"@);
    let r = n.field("right"@);
    let o = n.field("operator"@);
    if !(0 <= l < n.children.len()) {
        missing("binary_expression"@, "left"@)
    } else if !(0 <= r < n.children.len()) {
        missing("binary_expression"@, "right"@)
    } else if !(0 <= o < n.children.len()) {
        missing("binary_expression"@, "operator"@)
    } else {
        match transpiled(n.children[l]) {
            Err(e) => Err(e),
            Ok(left) => match transpiled(n.children[r]) {
                Err(e) => Err(e),
                Ok(right) => match binary_opcode_of(n.children[o].text) {
                    Some(opcode) => Ok(call_of(opcode, seq![left, right])),
                    None => Err(
                        TranspileErrorView::Unsupported(
                            "operator '"@ + n.children[o].text + "'"@,
                        ),
                    ),
                },
            },
        }
    }
}

/// A unary expression: `!` and `-` as their opcodes, `+` as its operand.
pub open spec fn unary_expr(n: NodeView) -> Transpiled
    decreases n, 1int, 0int,
{
    let o = n.field("operator"@);
    let a = n.field("argument"@);
    if !(0 <= o < n.children.len()) {
        missing("unary_expression"@, "operator"@)
    } else if !(0 <= a < n.children.len()) {
        missing("unary_expression"@, "argument"@)
    } else {
        match transpiled(n.children[a]) {
            Err(e) => Err(e),
            Ok(argument) => {
                let op = n.children[o].text;
                if op == "!"@ {
                    Ok(call_of("bool.not"@, seq![argument]))
                } else if op == "-"@ {
                    Ok(call_of("math.neg"@, seq![argument]))
                } else if op == "+"@ {
                    Ok(argument)
                } else {
                    Err(TranspileErrorView::Unsupported("unary operator '"@ + op + "'"@))
                }
            },
        }
    }
}

/// The name that a call calls: an identifier, or the names of a member
/// expression joined by `.`.
pub open spec fn call_name(n: NodeView) -> Result<Seq<char>, TranspileErrorView>
    decreases n, 0int, 0int,
{
    if n.kind == "identifier"@ {
        Ok(n.text)
    } else if n.kind == "member_expression"@ {
        let o = n.field("object"@);
        let p = n.field("property"@);
        if !(0 <= o < n.children.len()) {
            Err(TranspileErrorView::Parse("member_expression missing object"@))
        } else if !(0 <= p < n.children.len()) {
            Err(TranspileErrorView::Parse("member_expression missing property"@))
        } else {
            match call_name(n.children[o]) {
                Err(e) => Err(e),
                Ok(object) => Ok(object + "."@ + n.children[p].text),
            }
        }
    } else {
        Err(TranspileErrorView::Unsupported("call target type '"@ + n.kind + "'"@))
    }
}

/// A call: the called name as opcode on the arguments.
pub open spec fn call_expr(n: NodeView) -> Transpiled
    decreases n, 1int, 0int,
{
    let f = n.field("function"@);
    let a = n.field("arguments"@);
    if !(0 <= f < n.children.len()) {
        missing("call_expression"@, "function"@)
    } else if !(0 <= a < n.children.len()) {
        missing("call_expression"@, "arguments"@)
    } else {
        match call_name(n.children[f]) {
            Err(e) => Err(e),
            Ok(name) => match named_children(n.children[a], 0, Seq::empty(), false) {
                Err(e) => Err(e),
                Ok(args) => Ok(call_of(name, args)),
            },
        }
    }
}

/// A member expression: `obj.get` of the object and the property's name.
pub open spec fn member_expr(n: NodeView) -> Transpiled
    decreases n, 1int, 0int,
{
    let o = n.field("object"@);
    let p = n.field("property"@);
    if !(0 <= o < n.children.len()) {
        missing("member_expression"@, "object"@)
    } else if !(0 <= p < n.children.len()) {
        missing("member_expression"@, "property"@)
    } else {
        match transpiled(n.children[o]) {
            Err(e) => Err(e),
            Ok(object) => Ok(
                call_of("obj.get"@, seq![object, SExprView::String(n.children[p].text)]),
            ),
        }
    }
}

/// A subscript expression: `list.get` of the object and the index.
pub open spec fn subscript_expr(n: NodeView) -> Transpiled
    decreases n, 1int, 0int,
{
    let o = n.field("object"@);
    let i = n.field("index"@);
    if !(0 <= o < n.children.len()) {
        missing("subscript_expression"@, "object"@)
    } else if !(0 <= i < n.children.len()) {
        missing("subscript_expression"@, "index"@)
    } else {
        match transpiled(n.children[o]) {
            Err(e) => Err(e),
            Ok(object) => match transpiled(n.children[i]) {
                Err(e) => Err(e),
                Ok(index) => Ok(call_of("list.get"@, seq![object, index])),
            },
        }
    }
}

/// The key that the key node of a pair stands for: the text of an
/// identifier, the text of a string without its first and last character.
pub open spec fn key_text(key: NodeView) -> Result<Seq<char>, TranspileErrorView> {
    if key.kind == "property_identifier"@ || key.kind == "identifier"@ {
        Ok(key.text)
    } else if key.kind == "string"@ {
        if key.text.len() >= 2 {
            Ok(key.text.subrange(1, key.text.len() - 1))
        } else {
            Ok(Seq::empty())
        }
    } else {
        Err(TranspileErrorView::Unsupported("object key type '"@ + key.kind + "'"@))
    }
}

/// The keys and values of an object literal from child `from` on, after
/// `acc`: for each pair its key and what its value becomes, for each
/// shorthand its name and the variable of that name.
pub open spec fn object_pairs(parent: NodeView, from: int, acc: Seq<SExprView>) -> Result<
    Seq<SExprView>,
    TranspileErrorView,
>
    decreases parent, 1int, parent.children.len() - from,
{
    if from < 0 || from >= parent.children.len() {
        Ok(acc)
    } else {
        let child = parent.children[from];
        if child.kind == "pair"@ {
            let k = child.field("key"@);
            let v = child.field("value"@);
            if !(0 <= k < child.children.len()) {
                Err(TranspileErrorView::Parse("pair missing key"@))
            } else if !(0 <= v < child.children.len()) {
                Err(TranspileErrorView::Parse("pair missing value"@))
            } else {
                match key_text(child.children[k]) {
                    Err(e) => Err(e),
                    Ok(key) => match transpiled(parent.children[from].children[v]) {
                        Err(e) => Err(e),
                        Ok(value) => object_pairs(
                            parent,
                            from + 1,
                            acc.push(SExprView::String(key)).push(value),
                        ),
                    },
                }
            }
        } else if child.kind == "shorthand_property_identifier"@ {
            object_pairs(
                parent,
                from + 1,
                acc.push(SExprView::String(child.text)).push(variable(child.text)),
            )
        } else {
            object_pairs(parent, from + 1, acc)
        }
    }
}

/// The names of formal parameters from child `from` on, after `acc`: each
/// identifier, and the pattern of each required parameter.
pub open spec fn formal_parameters(params: NodeView, from: int, acc: Seq<SExprView>) -> Seq<SExprView>
    decreases params.children.len() - from,
{
    if from < 0 || from >= params.children.len() {
        acc
    } else {
        let child = params.children[from];
        if child.kind == "identifier"@ {
            formal_parameters(params, from + 1, acc.push(SExprView::String(child.text)))
        } else if child.kind == "required_parameter"@ {
            let p = child.field("pattern"@);
            if 0 <= p < child.children.len() {
                formal_parameters(
                    params,
                    from + 1,
                    acc.push(SExprView::String(child.children[p].text)),
                )
            } else {
                formal_parameters(params, from + 1, acc)
            }
        } else {
            formal_parameters(params, from + 1, acc)
        }
    }
}

/// The names that the parameter node of a function stands for.
pub open spec fn parameter_names(params: NodeView) -> Seq<SExprView> {
    if params.kind == "identifier"@ {
        seq![SExprView::String(params.text)]
    } else if params.kind == "formal_parameters"@ {
        formal_parameters(params, 0, Seq::empty())
    } else {
        Seq::empty()
    }
}

/// The names of the parameters of an arrow function: those under
/// `parameters`, then the lone identifier under `parameter`.
pub open spec fn arrow_parameters(n: NodeView) -> Seq<SExprView> {
    let many = n.field("parameters"@);
    let one = n.field("parameter"@);
    let first = if 0 <= many < n.children.len() {
        parameter_names(n.children[many])
    } else {
        Seq::empty()
    };
    if 0 <= one < n.children.len() && n.children[one].kind == "identifier"@ {
        first.push(SExprView::String(n.children[one].text))
    } else {
        first
    }
}

/// An arrow function: `std.fn` of the parameter names and the body.
pub open spec fn arrow_function(n: NodeView) -> Transpiled
    decreases n, 1int, 0int,
{
    let b = n.field("body"@);
    if !(0 <= b < n.children.len()) {
        missing("arrow_function"@, "body"@)
    } else {
        match transpiled(n.children[b]) {
            Err(e) => Err(e),
            Ok(body) => Ok(
                call_of("std.fn"@, seq![SExprView::List(arrow_parameters(n)), body]),
            ),
        }
    }
}

/// A conditional expression: `std.if` of its three parts.
pub open spec fn ternary(n: NodeView) -> Transpiled
    decreases n, 1int, 0int,
{
    let c = n.field("condition"@);
    let t = n.field("consequence"@);
    let a = n.field("alternative"@);
    if !(0 <= c < n.children.len()) {
        missing("ternary"@, "condition"@)
    } else if !(0 <= t < n.children.len()) {
        missing("ternary"@, "consequence"@)
    } else if !(0 <= a < n.children.len()) {
        missing("ternary"@, "alternative"@)
    } else {
        match transpiled(n.children[c]) {
            Err(e) => Err(e),
            Ok(condition) => match transpiled(n.children[t]) {
                Err(e) => Err(e),
                Ok(consequence) => match transpiled(n.children[a]) {
                    Err(e) => Err(e),
                    Ok(alternative) => Ok(
                        call_of("std.if"@, seq![condition, consequence, alternative]),
                    ),
                },
            },
        }
    }
}

/// A declarator: `std.let` of the name and the value, null where there is
/// none.
pub open spec fn declarator(n: NodeView) -> Transpiled
    decreases n, 1int, 0int,
{
    let name = n.field("name"@);
    let value = n.field("value"@);
    if !(0 <= name < n.children.len()) {
        missing("variable_declarator"@, "name"@)
    } else if 0 <= value < n.children.len() {
        match transpiled(n.children[value]) {
            Err(e) => Err(e),
            Ok(v) => Ok(call_of("std.let"@, seq![SExprView::String(n.children[name].text), v])),
        }
    } else {
        Ok(call_of("std.let"@, seq![SExprView::String(n.children[name].text), SExprView::Null]))
    }
}

/// What the declarators among the children of `parent` from position
/// `from` on become, after `acc`.
pub open spec fn declarators(parent: NodeView, from: int, acc: Seq<SExprView>) -> Result<
    Seq<SExprView>,
    TranspileErrorView,
>
    decreases parent, 1int, parent.children.len() - from,
{
    if from < 0 || from >= parent.children.len() {
        Ok(acc)
    } else if parent.children[from].kind == "variable_declarator"@ {
        match declarator(parent.children[from]) {
            Err(e) => Err(e),
            Ok(d) => declarators(parent, from + 1, acc.push(d)),
        }
    } else {
        declarators(parent, from + 1, acc)
    }
}

/// An `if` statement: `std.if` of the condition, the consequence and,
/// where there is an `else`, what its clause becomes.
pub open spec fn if_statement(n: NodeView) -> Transpiled
    decreases n, 1int, 0int,
{
    let c = n.field("condition"@);
    let t = n.field("consequence"@);
    let a = n.field("alternative"@);
    if !(0 <= c < n.children.len()) {
        missing("if_statement"@, "condition"@)
    } else if !(0 <= t < n.children.len()) {
        missing("if_statement"@, "consequence"@)
    } else {
        match transpiled(n.children[c]) {
            Err(e) => Err(e),
            Ok(condition) => match transpiled(n.children[t]) {
                Err(e) => Err(e),
                Ok(consequence) => if 0 <= a < n.children.len() {
                    match else_clause(n.children[a]) {
                        Err(e) => Err(e),
                        Ok(alternative) => Ok(
                            call_of("std.if"@, seq![condition, consequence, alternative]),
                        ),
                    }
                } else {
                    Ok(call_of("std.if"@, seq![condition, consequence]))
                },
            },
        }
    }
}

/// An `else` clause: what its first named child becomes, null where it
/// has none.
pub open spec fn else_clause(n: NodeView) -> Transpiled
    decreases n, 1int, 1int,
{
    match first_named_child(n) {
        Some(r) => r,
        None => Ok(SExprView::Null),
    }
}

/// A `return` statement: what the first named child from position `from`
/// on that is not the keyword becomes, null where there is none.
pub open spec fn returned(n: NodeView, from: int) -> Transpiled
    decreases n, 1int, n.children.len() - from,
{
    if from < 0 || from >= n.children.len() {
        Ok(SExprView::Null)
    } else if n.children[from].named && n.children[from].kind != "return"@ {
        transpiled(n.children[from])
    } else {
        returned(n, from + 1)
    }
}

/// Whether `r` is the result that `expected` describes.
pub open spec fn is_result(r: Result<SExpr, TranspileError>, expected: Transpiled) -> bool {
    match r {
        Ok(e) => expected == Ok::<SExprView, TranspileErrorView>(e@),
        Err(e) => expected == Err::<SExprView, TranspileErrorView>(e@),
    }
}

/// Whether `r` is the list of results that `expected` describes.
pub open spec fn is_results(
    r: Result<Vec<SExpr>, TranspileError>,
    expected: Result<Seq<SExprView>, TranspileErrorView>,
) -> bool {
    match r {
        Ok(v) => expected == Ok::<Seq<SExprView>, TranspileErrorView>(list_view(v@)),
        Err(e) => expected == Err::<Seq<SExprView>, TranspileErrorView>(e@),
    }
}

/// The opcode that a binary operator stands for.
pub open spec fn binary_opcode_of(op: Seq<char>) -> Option<Seq<char>> {
    if op == "+"@ {
        Some("math.add"@)
    } else if op == "-"@ {
        Some("math.sub"@)
    } else if op == "*"@ {
        Some("math.mul"@)
    } else if op == "/"@ {
        Some("math.div"@)
    } else if op == "%"@ {
        Some("math.mod"@)
    } else if op == "**"@ {
        Some("math.pow"@)
    } else if op == "=="@ || op == "==="@ {
        Some("bool.eq"@)
    } else if op == "!="@ || op == "!=="@ {
        Some("bool.neq"@)
    } else if op == "<"@ {
        Some("bool.lt"@)
    } else if op == ">"@ {
        Some("bool.gt"@)
    } else if op == "<="@ {
        Some("bool.lte"@)
    } else if op == ">="@ {
        Some("bool.gte"@)
    } else if op == "&&"@ {
        Some("bool.and"@)
    } else if op == "||"@ {
        Some("bool.or"@)
    } else {
        None
    }
}

/// The opcode that the binary operator `op` stands for.
pub fn binary_opcode(op: &str) -> (r: Option<&'static str>)
    ensures
        match r {
            Some(name) => binary_opcode_of(op@) == Some(name@),
            None => binary_opcode_of(op@) is None,
        },
{
    if str_eq(op, "+") {
        Some("math.add")
    } else if str_eq(op, "-") {
        Some("math.sub")
    } else if str_eq(op, "*") {
        Some("math.mul")
    } else if str_eq(op, "/") {
        Some("math.div")
    } else if str_eq(op, "%") {
        Some("math.mod")
    } else if str_eq(op, "**") {
        Some("math.pow")
    } else if str_eq(op, "==") || str_eq(op, "===") {
        Some("bool.eq")
    } else if str_eq(op, "!=") || str_eq(op, "!==") {
        Some("bool.neq")
    } else if str_eq(op, "<") {
        Some("bool.lt")
    } else if str_eq(op, ">") {
        Some("bool.gt")
    } else if str_eq(op, "<=") {
        Some("bool.lte")
    } else if str_eq(op, ">=") {
        Some("bool.gte")
    } else if str_eq(op, "&&") {
        Some("bool.and")
    } else if str_eq(op, "||") {
        Some("bool.or")
    } else {
        None
    }
}

/// `s` with each occurrence of `pattern` replaced by `replacement`, found
/// from the left and not overlapping.
pub open spec fn replaced(s: Seq<char>, pattern: Seq<char>, replacement: Seq<char>) -> Seq<char>
    decreases s.len(),
{
    if pattern.len() == 0 || s.len() < pattern.len() {
        s
    } else if pattern.is_prefix_of(s) {
        replacement + replaced(s.skip(pattern.len() as int), pattern, replacement)
    } else {
        seq![s[0]] + replaced(s.skip(1), pattern, replacement)
    }
}

fn matches_at(s: &Vec<char>, i: usize, pattern: &Vec<char>) -> (r: bool)
    requires
        i <= s.len(),
    ensures
        r == pattern@.is_prefix_of(s@.skip(i as int)),
{
    if pattern.len() > s.len() - i {
        return false;
    }
    let mut k: usize = 0;
    while k < pattern.len()
        invariant
            i <= s.len(),
            pattern.len() <= s.len() - i,
            k <= pattern.len(),
            forall|j: int| 0 <= j < k ==> s@[i + j] == pattern@[j],
        decreases pattern.len() - k,
    {
        if s[i + k] != pattern[k] {
            assert(s@.skip(i as int)[k as int] != pattern@[k as int]);
            assert(!(pattern@ =~= s@.skip(i as int).subrange(0, pattern@.len() as int)));
            return false;
        }
        k += 1;
    }
    assert(pattern@ =~= s@.skip(i as int).subrange(0, pattern@.len() as int));
    true
}

/// `s` with each occurrence of the non-empty `pattern` replaced by
/// `replacement`.
pub fn replace_all(s: &Vec<char>, pattern: &Vec<char>, replacement: &Vec<char>) -> (r: Vec<char>)
    requires
        pattern.len() > 0,
    ensures
        r@ == replaced(s@, pattern@, replacement@),
{
    let mut out: Vec<char> = Vec::new();
    let mut i: usize = 0;
    proof {
        assert(s@.skip(0) =~= s@);
    }
    while i < s.len()
        invariant
            i <= s.len(),
            pattern.len() > 0,
            out@ + replaced(s@.skip(i as int), pattern@, replacement@) == replaced(
                s@,
                pattern@,
                replacement@,
            ),
        decreases s.len() - i,
    {
        let ghost rest = s@.skip(i as int);
        let ghost before = out@;
        if matches_at(s, i, pattern) {
            let mut k: usize = 0;
            while k < replacement.len()
                invariant
                    k <= replacement.len(),
                    out@ == before + replacement@.take(k as int),
                decreases replacement.len() - k,
            {
                out.push(replacement[k]);
                proof {
                    assert(replacement@.take(k + 1) =~= replacement@.take(k as int).push(
                        replacement@[k as int],
                    ));
                }
                k += 1;
            }
            proof {
                assert(replacement@.take(k as int) =~= replacement@);
                assert(rest.skip(pattern@.len() as int) =~= s@.skip(i + pattern@.len()));
                assert(out@ + replaced(s@.skip(i + pattern@.len()), pattern@, replacement@) =~= before
                    + replaced(rest, pattern@, replacement@));
            }
            i += pattern.len();
        } else {
            out.push(s[i]);
            proof {
                assert(rest.skip(1) =~= s@.skip(i + 1));
                if rest.len() >= pattern@.len() {
                    assert(out@ + replaced(s@.skip(i + 1), pattern@, replacement@) =~= before
                        + replaced(rest, pattern@, replacement@));
                } else {
                    lemma_replaced_short(s@.skip(i + 1), pattern@, replacement@);
                    assert(out@ + s@.skip(i + 1) =~= before + rest);
                }
            }
            i += 1;
        }
    }
    proof {
        assert(s@.skip(i as int) =~= Seq::empty());
        assert(out@ + Seq::<char>::empty() =~= out@);
    }
    out
}

/// A text shorter than the pattern holds no occurrence of it.
pub proof fn lemma_replaced_short(s: Seq<char>, pattern: Seq<char>, replacement: Seq<char>)
    requires
        s.len() < pattern.len(),
    ensures
        replaced(s, pattern, replacement) == s,
{
}

/// The text that a string literal stands for: the source text without
/// its quotes, where it starts with `"`, `'` or a backquote, and with the
/// escapes for newline, tab, return, the two quotes and the backslash
/// replaced, one kind after the other in that order.
pub open spec fn literal_text(source: Seq<char>) -> Seq<char> {
    let inner = if source.len() >= 2 && (source[0] == '"' || source[0] == '\'' || source[0] == '`') {
        source.subrange(1, source.len() - 1)
    } else {
        source
    };
    let a = replaced(inner, seq!['\\', 'n'], seq!['\n']);
    let b = replaced(a, seq!['\\', 't'], seq!['\t']);
    let c = replaced(b, seq!['\\', 'r'], seq!['\r']);
    let d = replaced(c, seq!['\\', '"'], seq!['"']);
    let e = replaced(d, seq!['\\', '\''], seq!['\'']);
    replaced(e, seq!['\\', '\\'], seq!['\\'])
}

fn pair(a: char, b: char) -> (r: Vec<char>)
    ensures
        r@ == seq![a, b],
{
    let mut v: Vec<char> = Vec::new();
    v.push(a);
    v.push(b);
    v
}

fn single(a: char) -> (r: Vec<char>)
    ensures
        r@ == seq![a],
{
    let mut v: Vec<char> = Vec::new();
    v.push(a);
    v
}

/// The text that the string literal with source text `source` stands for.
pub fn unescape(source: &str) -> (r: String)
    ensures
        r@ == literal_text(source@),
{
    let chars = to_chars(source);
    let inner: Vec<char> = if chars.len() >= 2 && (chars[0] == '"' || chars[0] == '\'' || chars[0]
        == '`') {
        let mut v: Vec<char> = Vec::new();
        let mut i: usize = 1;
        while i < chars.len() - 1
            invariant
                chars.len() >= 2,
                1 <= i <= chars.len() - 1,
                v@ == chars@.subrange(1, i as int),
            decreases chars.len() - i,
        {
            v.push(chars[i]);
            proof {
                assert(chars@.subrange(1, i + 1) =~= chars@.subrange(1, i as int).push(
                    chars@[i as int],
                ));
            }
            i += 1;
        }
        v
    } else {
        chars
    };
    let a = replace_all(&inner, &pair('\\', 'n'), &single('\n'));
    let b = replace_all(&a, &pair('\\', 't'), &single('\t'));
    let c = replace_all(&b, &pair('\\', 'r'), &single('\r'));
    let d = replace_all(&c, &pair('\\', '"'), &single('"'));
    let e = replace_all(&d, &pair('\\', '\''), &single('\''));
    let f = replace_all(&e, &pair('\\', '\\'), &single('\\'));
    let r = from_chars(&f, 0, f.len());
    proof {
        assert(f@.subrange(0, f@.len() as int) =~= f@);
    }
    r
}

fn call1(name: &str, a: SExpr) -> (r: SExpr)
    ensures
        r@ == call_of(name@, seq![a@]),
{
    let mut args: Vec<SExpr> = Vec::new();
    args.push(a);
    proof {
        lemma_list_view(args@);
        assert(list_view(args@) =~= seq![a@]);
    }
    SExpr::call(name, args)
}

fn call2(name: &str, a: SExpr, b: SExpr) -> (r: SExpr)
    ensures
        r@ == call_of(name@, seq![a@, b@]),
{
    let mut args: Vec<SExpr> = Vec::new();
    args.push(a);
    args.push(b);
    proof {
        lemma_list_view(args@);
        assert(list_view(args@) =~= seq![a@, b@]);
    }
    SExpr::call(name, args)
}

fn call3(name: &str, a: SExpr, b: SExpr, c: SExpr) -> (r: SExpr)
    ensures
        r@ == call_of(name@, seq![a@, b@, c@]),
{
    let mut args: Vec<SExpr> = Vec::new();
    args.push(a);
    args.push(b);
    args.push(c);
    proof {
        lemma_list_view(args@);
        assert(list_view(args@) =~= seq![a@, b@, c@]);
    }
    SExpr::call(name, args)
}

fn variable_of(name: &str) -> (r: SExpr)
    ensures
        r@ == variable(name@),
{
    call1("std.var", SExpr::string(name))
}

fn missing_child(kind: &str, field: &str) -> (r: TranspileError)
    ensures
        missing(kind@, field@) == Err::<SExprView, TranspileErrorView>(r@),
{
    let mut s = kind.to_owned();
    s.append(" missing ");
    s.append(field);
    TranspileError::Parse(s)
}

fn one_or_seq(exprs: Vec<SExpr>) -> (r: SExpr)
    ensures
        r@ == one_or_sequence(list_view(exprs@)),
{
    let mut exprs = exprs;
    proof {
        lemma_list_view(exprs@);
    }
    if exprs.len() == 1 {
        exprs.remove(0)
    } else {
        SExpr::call("std.seq", exprs)
    }
}

/// Appending an expression to a list appends its view to the list's view.
proof fn lemma_pushed(before: Seq<SExpr>, after: Seq<SExpr>, e: SExpr)
    requires
        after == before.push(e),
    ensures
        list_view(after) == list_view(before).push(e@),
{
    assert(after.drop_last() =~= before);
}

/// The view of two lists joined is their views joined.
proof fn lemma_joined(a: Seq<SExpr>, b: Seq<SExpr>)
    ensures
        list_view(a + b) == list_view(a) + list_view(b),
{
    lemma_list_view(a);
    lemma_list_view(b);
    lemma_list_view(a + b);
    assert(list_view(a + b) =~= list_view(a) + list_view(b));
}

/// Transpiles a tree: one statement as it is, several as a sequence.
pub fn transpile(root: &SyntaxNode) -> (r: Result<SExpr, TranspileError>)
    ensures
        is_result(r, program(root@)),
{
    if root.error {
        return Err(TranspileError::Parse("syntax error in source".to_owned()));
    }
    match transpile_children(root, false) {
        Ok(statements) => Ok(one_or_seq(statements)),
        Err(e) => Err(e),
    }
}

/// Transpiles one node.
pub fn transpile_node(node: &SyntaxNode) -> (r: Result<SExpr, TranspileError>)
    ensures
        is_result(r, transpiled(node@)),
    decreases node, 2int, 0int,
{
    let kind = node.kind.as_str();
    if str_eq(kind, "number") {
        transpile_number(node)
    } else if str_eq(kind, "string") {
        transpile_string(node)
    } else if str_eq(kind, "true") {
        Ok(SExpr::Bool(true))
    } else if str_eq(kind, "false") {
        Ok(SExpr::Bool(false))
    } else if str_eq(kind, "null") || str_eq(kind, "undefined") || str_eq(kind, "comment") {
        Ok(SExpr::Null)
    } else if str_eq(kind, "identifier") {
        Ok(variable_of(node.text.as_str()))
    } else if str_eq(kind, "binary_expression") {
        transpile_binary_expr(node)
    } else if str_eq(kind, "unary_expression") {
        transpile_unary_expr(node)
    } else if str_eq(kind, "parenthesized_expression") {
        transpile_parenthesized(node)
    } else if str_eq(kind, "call_expression") {
        transpile_call_expr(node)
    } else if str_eq(kind, "member_expression") {
        transpile_member_expr(node)
    } else if str_eq(kind, "subscript_expression") {
        transpile_subscript_expr(node)
    } else if str_eq(kind, "array") {
        transpile_array(node)
    } else if str_eq(kind, "object") {
        transpile_object(node)
    } else if str_eq(kind, "arrow_function") {
        transpile_arrow_function(node)
    } else if str_eq(kind, "ternary_expression") {
        transpile_ternary(node)
    } else if str_eq(kind, "expression_statement") {
        transpile_expression_statement(node)
    } else if str_eq(kind, "else_clause") {
        transpile_else_clause(node)
    } else if str_eq(kind, "lexical_declaration") {
        transpile_lexical_declaration(node)
    } else if str_eq(kind, "variable_declaration") {
        transpile_variable_declaration(node)
    } else if str_eq(kind, "if_statement") {
        transpile_if_statement(node)
    } else if str_eq(kind, "return_statement") {
        transpile_return_statement(node)
    } else if str_eq(kind, "statement_block") {
        transpile_block(node)
    } else {
        let mut s = "node type '".to_owned();
        s.append(kind);
        s.append("': ");
        s.append(node.text.as_str());
        Err(TranspileError::Unsupported(s))
    }
}

/// A number literal: the double that its text denotes.
pub fn transpile_number(node: &SyntaxNode) -> (r: Result<SExpr, TranspileError>)
    ensures
        is_result(
            r,
            match node@.number {
                Some(bits) => Ok(SExprView::Number(bits)),
                None => Err(TranspileErrorView::Parse("invalid number: "@ + node@.text)),
            },
        ),
{
    match node.number {
        Some(bits) => Ok(SExpr::Number(bits)),
        None => {
            let mut s = "invalid number: ".to_owned();
            s.append(node.text.as_str());
            Err(TranspileError::Parse(s))
        },
    }
}

/// A string literal: its text without quotes and escapes.
pub fn transpile_string(node: &SyntaxNode) -> (r: Result<SExpr, TranspileError>)
    ensures
        is_result(r, Ok(SExprView::String(literal_text(node@.text)))),
{
    Ok(SExpr::String(unescape(node.text.as_str())))
}

/// What the named children of `parent` become, in order.
fn transpile_children(parent: &SyntaxNode, skip_null: bool) -> (r: Result<
    Vec<SExpr>,
    TranspileError,
>)
    ensures
        is_results(r, named_children(parent@, 0, Seq::empty(), skip_null)),
    decreases parent, 1int, 0int,
{
    let mut acc: Vec<SExpr> = Vec::new();
    let mut i: usize = 0;
    proof {
        lemma_nodes_view(parent.children@);
        lemma_list_view(acc@);
        assert(list_view(acc@) =~= Seq::empty());
    }
    while i < parent.children.len()
        invariant
            i <= parent.children.len(),
            parent@.children.len() == parent.children@.len(),
            forall|j: int|
                0 <= j < parent.children@.len() ==> (#[trigger] parent@.children[j])
                    == parent.children@[j]@,
            named_children(parent@, 0, Seq::empty(), skip_null) == named_children(
                parent@,
                i as int,
                list_view(acc@),
                skip_null,
            ),
        decreases parent.children.len() - i,
    {
        let child = &parent.children[i];
        if child.named {
            match transpile_node(child) {
                Err(e) => {
                    return Err(e);
                },
                Ok(v) => {
                    if !(skip_null && v.is_null()) {
                        let ghost before = acc@;
                        acc.push(v);
                        proof {
                            lemma_pushed(before, acc@, v);
                        }
                    }
                },
            }
        }
        i += 1;
    }
    Ok(acc)
}

/// What the first named child of `node` becomes; null where it has none.
fn transpile_first_named(node: &SyntaxNode) -> (r: Result<SExpr, TranspileError>)
    ensures
        is_result(
            r,
            match first_named_child(node@) {
                Some(r) => r,
                None => Ok(SExprView::Null),
            },
        ),
    decreases node, 1int, 0int,
{
    proof {
        lemma_nodes_view(node.children@);
    }
    match node.first_named_index() {
        Some(i) => transpile_node(&node.children[i]),
        None => Ok(SExpr::Null),
    }
}

/// A parenthesized expression: the expression inside.
pub fn transpile_parenthesized(node: &SyntaxNode) -> (r: Result<SExpr, TranspileError>)
    ensures
        is_result(
            r,
            match first_named_child(node@) {
                Some(r) => r,
                None => Err(TranspileErrorView::Parse("empty parenthesized expression"@)),
            },
        ),
    decreases node, 1int, 0int,
{
    proof {
        lemma_nodes_view(node.children@);
    }
    match node.first_named_index() {
        Some(i) => transpile_node(&node.children[i]),
        None => Err(TranspileError::Parse("empty parenthesized expression".to_owned())),
    }
}

/// A binary expression.
pub fn transpile_binary_expr(node: &SyntaxNode) -> (r: Result<SExpr, TranspileError>)
    ensures
        is_result(r, binary_expr(node@)),
    decreases node, 1int, 0int,
{
    proof {
        lemma_nodes_view(node.children@);
    }
    let l = match node.field_index("left") {
        Some(l) => l,
        None => {
            return Err(missing_child("binary_expression", "left"));
        },
    };
    let r = match node.field_index("right") {
        Some(r) => r,
        None => {
            return Err(missing_child("binary_expression", "right"));
        },
    };
    let o = match node.field_index("operator") {
        Some(o) => o,
        None => {
            return Err(missing_child("binary_expression", "operator"));
        },
    };
    let left = match transpile_node(&node.children[l]) {
        Ok(left) => left,
        Err(e) => {
            return Err(e);
        },
    };
    let right = match transpile_node(&node.children[r]) {
        Ok(right) => right,
        Err(e) => {
            return Err(e);
        },
    };
    let op = node.children[o].text.as_str();
    match binary_opcode(op) {
        Some(opcode) => Ok(call2(opcode, left, right)),
        None => {
            let mut s = "operator '".to_owned();
            s.append(op);
            s.append("'");
            Err(TranspileError::Unsupported(s))
        },
    }
}

/// A unary expression.
pub fn transpile_unary_expr(node: &SyntaxNode) -> (r: Result<SExpr, TranspileError>)
    ensures
        is_result(r, unary_expr(node@)),
    decreases node, 1int, 0int,
{
    proof {
        lemma_nodes_view(node.children@);
    }
    let o = match node.field_index("operator") {
        Some(o) => o,
        None => {
            return Err(missing_child("unary_expression", "operator"));
        },
    };
    let a = match node.field_index("argument") {
        Some(a) => a,
        None => {
            return Err(missing_child("unary_expression", "argument"));
        },
    };
    let argument = match transpile_node(&node.children[a]) {
        Ok(argument) => argument,
        Err(e) => {
            return Err(e);
        },
    };
    let op = node.children[o].text.as_str();
    if str_eq(op, "!") {
        Ok(call1("bool.not", argument))
    } else if str_eq(op, "-") {
        Ok(call1("math.neg", argument))
    } else if str_eq(op, "+") {
        Ok(argument)
    } else {
        let mut s = "unary operator '".to_owned();
        s.append(op);
        s.append("'");
        Err(TranspileError::Unsupported(s))
    }
}

/// The name that a call calls.
pub fn get_call_name(node: &SyntaxNode) -> (r: Result<String, TranspileError>)
    ensures
        match r {
            Ok(name) => call_name(node@) == Ok::<Seq<char>, TranspileErrorView>(name@),
            Err(e) => call_name(node@) == Err::<Seq<char>, TranspileErrorView>(e@),
        },
    decreases node,
{
    proof {
        lemma_nodes_view(node.children@);
    }
    let kind = node.kind.as_str();
    if str_eq(kind, "identifier") {
        Ok(node.text.clone())
    } else if str_eq(kind, "member_expression") {
        let o = match node.field_index("object") {
            Some(o) => o,
            None => {
                return Err(TranspileError::Parse("member_expression missing object".to_owned()));
            },
        };
        let p = match node.field_index("property") {
            Some(p) => p,
            None => {
                return Err(
                    TranspileError::Parse("member_expression missing property".to_owned()),
                );
            },
        };
        match get_call_name(&node.children[o]) {
            Err(e) => Err(e),
            Ok(object) => {
                let mut s = object;
                s.append(".");
                s.append(node.children[p].text.as_str());
                Ok(s)
            },
        }
    } else {
        let mut s = "call target type '".to_owned();
        s.append(kind);
        s.append("'");
        Err(TranspileError::Unsupported(s))
    }
}

/// A call.
pub fn transpile_call_expr(node: &SyntaxNode) -> (r: Result<SExpr, TranspileError>)
    ensures
        is_result(r, call_expr(node@)),
    decreases node, 1int, 1int,
{
    proof {
        lemma_nodes_view(node.children@);
    }
    let f = match node.field_index("function") {
        Some(f) => f,
        None => {
            return Err(missing_child("call_expression", "function"));
        },
    };
    let a = match node.field_index("arguments") {
        Some(a) => a,
        None => {
            return Err(missing_child("call_expression", "arguments"));
        },
    };
    let name = match get_call_name(&node.children[f]) {
        Ok(name) => name,
        Err(e) => {
            return Err(e);
        },
    };
    match transpile_children(&node.children[a], false) {
        Ok(args) => Ok(SExpr::call(name.as_str(), args)),
        Err(e) => Err(e),
    }
}

/// A member expression.
pub fn transpile_member_expr(node: &SyntaxNode) -> (r: Result<SExpr, TranspileError>)
    ensures
        is_result(r, member_expr(node@)),
    decreases node, 1int, 0int,
{
    proof {
        lemma_nodes_view(node.children@);
    }
    let o = match node.field_index("object") {
        Some(o) => o,
        None => {
            return Err(missing_child("member_expression", "object"));
        },
    };
    let p = match node.field_index("property") {
        Some(p) => p,
        None => {
            return Err(missing_child("member_expression", "property"));
        },
    };
    match transpile_node(&node.children[o]) {
        Ok(object) => Ok(
            call2("obj.get", object, SExpr::string(node.children[p].text.as_str())),
        ),
        Err(e) => Err(e),
    }
}

/// A subscript expression.
pub fn transpile_subscript_expr(node: &SyntaxNode) -> (r: Result<SExpr, TranspileError>)
    ensures
        is_result(r, subscript_expr(node@)),
    decreases node, 1int, 0int,
{
    proof {
        lemma_nodes_view(node.children@);
    }
    let o = match node.field_index("object") {
        Some(o) => o,
        None => {
            return Err(missing_child("subscript_expression", "object"));
        },
    };
    let i = match node.field_index("index") {
        Some(i) => i,
        None => {
            return Err(missing_child("subscript_expression", "index"));
        },
    };
    let object = match transpile_node(&node.children[o]) {
        Ok(object) => object,
        Err(e) => {
            return Err(e);
        },
    };
    match transpile_node(&node.children[i]) {
        Ok(index) => Ok(call2("list.get", object, index)),
        Err(e) => Err(e),
    }
}

/// An array literal: `list.new` of its elements.
pub fn transpile_array(node: &SyntaxNode) -> (r: Result<SExpr, TranspileError>)
    ensures
        is_result(
            r,
            match named_children(node@, 0, Seq::empty(), false) {
                Ok(elements) => Ok(call_of("list.new"@, elements)),
                Err(e) => Err(e),
            },
        ),
    decreases node, 1int, 1int,
{
    match transpile_children(node, false) {
        Ok(elements) => Ok(SExpr::call("list.new", elements)),
        Err(e) => Err(e),
    }
}

/// The key that the key node of a pair stands for.
fn object_key(key: &SyntaxNode) -> (r: Result<String, TranspileError>)
    ensures
        match r {
            Ok(k) => key_text(key@) == Ok::<Seq<char>, TranspileErrorView>(k@),
            Err(e) => key_text(key@) == Err::<Seq<char>, TranspileErrorView>(e@),
        },
{
    let kind = key.kind.as_str();
    if str_eq(kind, "property_identifier") || str_eq(kind, "identifier") {
        Ok(key.text.clone())
    } else if str_eq(kind, "string") {
        let chars = to_chars(key.text.as_str());
        if chars.len() >= 2 {
            Ok(from_chars(&chars, 1, chars.len() - 1))
        } else {
            Ok(String::new())
        }
    } else {
        let mut s = "object key type '".to_owned();
        s.append(kind);
        s.append("'");
        Err(TranspileError::Unsupported(s))
    }
}

/// An object literal: `obj.new` of its keys and values, in turn.
pub fn transpile_object(node: &SyntaxNode) -> (r: Result<SExpr, TranspileError>)
    ensures
        is_result(
            r,
            match object_pairs(node@, 0, Seq::empty()) {
                Ok(pairs) => Ok(call_of("obj.new"@, pairs)),
                Err(e) => Err(e),
            },
        ),
    decreases node, 1int, 0int,
{
    let mut acc: Vec<SExpr> = Vec::new();
    let mut i: usize = 0;
    proof {
        lemma_nodes_view(node.children@);
        lemma_list_view(acc@);
        assert(list_view(acc@) =~= Seq::empty());
    }
    while i < node.children.len()
        invariant
            i <= node.children.len(),
            node@.children.len() == node.children@.len(),
            forall|j: int|
                0 <= j < node.children@.len() ==> (#[trigger] node@.children[j])
                    == node.children@[j]@,
            object_pairs(node@, 0, Seq::empty()) == object_pairs(node@, i as int, list_view(acc@)),
        decreases node.children.len() - i,
    {
        let child = &node.children[i];
        proof {
            lemma_nodes_view(child.children@);
        }
        if str_eq(child.kind.as_str(), "pair") {
            let k = match child.field_index("key") {
                Some(k) => k,
                None => {
                    return Err(TranspileError::Parse("pair missing key".to_owned()));
                },
            };
            let v = match child.field_index("value") {
                Some(v) => v,
                None => {
                    return Err(TranspileError::Parse("pair missing value".to_owned()));
                },
            };
            let key = match object_key(&child.children[k]) {
                Ok(key) => key,
                Err(e) => {
                    return Err(e);
                },
            };
            let value = match transpile_node(&node.children[i].children[v]) {
                Ok(value) => value,
                Err(e) => {
                    return Err(e);
                },
            };
            let ghost before = acc@;
            let key_expr = SExpr::String(key);
            acc.push(key_expr);
            let ghost middle = acc@;
            acc.push(value);
            proof {
                lemma_pushed(before, middle, key_expr);
                lemma_pushed(middle, acc@, value);
            }
        } else if str_eq(child.kind.as_str(), "shorthand_property_identifier") {
            let ghost before = acc@;
            let key_expr = SExpr::string(child.text.as_str());
            acc.push(key_expr);
            let ghost middle = acc@;
            let value = variable_of(child.text.as_str());
            acc.push(value);
            proof {
                lemma_pushed(before, middle, key_expr);
                lemma_pushed(middle, acc@, value);
            }
        }
        i += 1;
    }
    Ok(SExpr::call("obj.new", acc))
}

/// Appends the names that the parameter node `params` stands for.
pub fn collect_params(params: &SyntaxNode, param_names: &mut Vec<SExpr>)
    ensures
        list_view(final(param_names)@) == list_view(old(param_names)@) + parameter_names(params@),
{
    let kind = params.kind.as_str();
    let ghost start = list_view(param_names@);
    if str_eq(kind, "identifier") {
        let ghost before = param_names@;
        let name = SExpr::string(params.text.as_str());
        param_names.push(name);
        proof {
            lemma_pushed(before, param_names@, name);
            assert(list_view(param_names@) =~= start + parameter_names(params@));
        }
    } else if str_eq(kind, "formal_parameters") {
        let mut found: Vec<SExpr> = Vec::new();
        let mut i: usize = 0;
        proof {
            lemma_nodes_view(params.children@);
            lemma_list_view(found@);
            assert(list_view(found@) =~= Seq::empty());
        }
        while i < params.children.len()
            invariant
                i <= params.children.len(),
                params@.children.len() == params.children@.len(),
                forall|j: int|
                    0 <= j < params.children@.len() ==> (#[trigger] params@.children[j])
                        == params.children@[j]@,
                formal_parameters(params@, 0, Seq::empty()) == formal_parameters(
                    params@,
                    i as int,
                    list_view(found@),
                ),
            decreases params.children.len() - i,
        {
            let child = &params.children[i];
            proof {
                lemma_nodes_view(child.children@);
            }
            if str_eq(child.kind.as_str(), "identifier") {
                let ghost before = found@;
                let name = SExpr::string(child.text.as_str());
                found.push(name);
                proof {
                    lemma_pushed(before, found@, name);
                }
            } else if str_eq(child.kind.as_str(), "required_parameter") {
                match child.field_index("pattern") {
                    Some(p) => {
                        let ghost before = found@;
                        let name = SExpr::string(child.children[p].text.as_str());
                        found.push(name);
                        proof {
                            lemma_pushed(before, found@, name);
                        }
                    },
                    None => {},
                }
            }
            i += 1;
        }
        let ghost first = param_names@;
        let ghost second = found@;
        param_names.append(&mut found);
        proof {
            lemma_joined(first, second);
        }
    } else {
        proof {
            assert(start + parameter_names(params@) =~= start);
        }
    }
}

/// An arrow function.
pub fn transpile_arrow_function(node: &SyntaxNode) -> (r: Result<SExpr, TranspileError>)
    ensures
        is_result(r, arrow_function(node@)),
    decreases node, 1int, 0int,
{
    proof {
        lemma_nodes_view(node.children@);
    }
    let mut param_names: Vec<SExpr> = Vec::new();
    proof {
        lemma_list_view(param_names@);
        assert(list_view(param_names@) =~= Seq::empty());
    }
    match node.field_index("parameters") {
        Some(many) => {
            collect_params(&node.children[many], &mut param_names);
            proof {
                assert(Seq::<SExprView>::empty() + parameter_names(node.children@[many as int]@)
                    =~= parameter_names(node.children@[many as int]@));
            }
        },
        None => {},
    }
    match node.field_index("parameter") {
        Some(one) => {
            if str_eq(node.children[one].kind.as_str(), "identifier") {
                let ghost before = param_names@;
                let name = SExpr::string(node.children[one].text.as_str());
                param_names.push(name);
                proof {
                    lemma_pushed(before, param_names@, name);
                }
            }
        },
        None => {},
    }
    let b = match node.field_index("body") {
        Some(b) => b,
        None => {
            return Err(missing_child("arrow_function", "body"));
        },
    };
    match transpile_node(&node.children[b]) {
        Ok(body) => Ok(call2("std.fn", SExpr::List(param_names), body)),
        Err(e) => Err(e),
    }
}

/// A conditional expression.
pub fn transpile_ternary(node: &SyntaxNode) -> (r: Result<SExpr, TranspileError>)
    ensures
        is_result(r, ternary(node@)),
    decreases node, 1int, 0int,
{
    proof {
        lemma_nodes_view(node.children@);
    }
    let c = match node.field_index("condition") {
        Some(c) => c,
        None => {
            return Err(missing_child("ternary", "condition"));
        },
    };
    let t = match node.field_index("consequence") {
        Some(t) => t,
        None => {
            return Err(missing_child("ternary", "consequence"));
        },
    };
    let a = match node.field_index("alternative") {
        Some(a) => a,
        None => {
            return Err(missing_child("ternary", "alternative"));
        },
    };
    let condition = match transpile_node(&node.children[c]) {
        Ok(condition) => condition,
        Err(e) => {
            return Err(e);
        },
    };
    let consequence = match transpile_node(&node.children[t]) {
        Ok(consequence) => consequence,
        Err(e) => {
            return Err(e);
        },
    };
    match transpile_node(&node.children[a]) {
        Ok(alternative) => Ok(call3("std.if", condition, consequence, alternative)),
        Err(e) => Err(e),
    }
}

/// An expression statement: its expression.
pub fn transpile_expression_statement(node: &SyntaxNode) -> (r: Result<SExpr, TranspileError>)
    ensures
        is_result(
            r,
            match first_named_child(node@) {
                Some(r) => r,
                None => Ok(SExprView::Null),
            },
        ),
    decreases node, 1int, 1int,
{
    transpile_first_named(node)
}

/// A `let` or `const` declaration: its declarators, one as it is, several
/// as a sequence.
pub fn transpile_lexical_declaration(node: &SyntaxNode) -> (r: Result<SExpr, TranspileError>)
    ensures
        is_result(
            r,
            match declarators(node@, 0, Seq::empty()) {
                Ok(declarations) => Ok(one_or_sequence(declarations)),
                Err(e) => Err(e),
            },
        ),
    decreases node, 1int, 0int,
{
    let mut acc: Vec<SExpr> = Vec::new();
    let mut i: usize = 0;
    proof {
        lemma_nodes_view(node.children@);
        lemma_list_view(acc@);
        assert(list_view(acc@) =~= Seq::empty());
    }
    while i < node.children.len()
        invariant
            i <= node.children.len(),
            node@.children.len() == node.children@.len(),
            forall|j: int|
                0 <= j < node.children@.len() ==> (#[trigger] node@.children[j])
                    == node.children@[j]@,
            declarators(node@, 0, Seq::empty()) == declarators(node@, i as int, list_view(acc@)),
        decreases node.children.len() - i,
    {
        let child = &node.children[i];
        if str_eq(child.kind.as_str(), "variable_declarator") {
            match transpile_variable_declarator(child) {
                Err(e) => {
                    return Err(e);
                },
                Ok(d) => {
                    let ghost before = acc@;
                    acc.push(d);
                    proof {
                        lemma_pushed(before, acc@, d);
                    }
                },
            }
        }
        i += 1;
    }
    Ok(one_or_seq(acc))
}

/// A `var` declaration: as a `let` declaration.
pub fn transpile_variable_declaration(node: &SyntaxNode) -> (r: Result<SExpr, TranspileError>)
    ensures
        is_result(
            r,
            match declarators(node@, 0, Seq::empty()) {
                Ok(declarations) => Ok(one_or_sequence(declarations)),
                Err(e) => Err(e),
            },
        ),
    decreases node, 1int, 1int,
{
    transpile_lexical_declaration(node)
}

/// A declarator.
pub fn transpile_variable_declarator(node: &SyntaxNode) -> (r: Result<SExpr, TranspileError>)
    ensures
        is_result(r, declarator(node@)),
    decreases node, 1int, 0int,
{
    proof {
        lemma_nodes_view(node.children@);
    }
    let name = match node.field_index("name") {
        Some(name) => name,
        None => {
            return Err(missing_child("variable_declarator", "name"));
        },
    };
    let value = match node.field_index("value") {
        Some(v) => match transpile_node(&node.children[v]) {
            Ok(value) => value,
            Err(e) => {
                return Err(e);
            },
        },
        None => SExpr::Null,
    };
    Ok(call2("std.let", SExpr::string(node.children[name].text.as_str()), value))
}

/// An `if` statement.
pub fn transpile_if_statement(node: &SyntaxNode) -> (r: Result<SExpr, TranspileError>)
    ensures
        is_result(r, if_statement(node@)),
    decreases node, 1int, 0int,
{
    proof {
        lemma_nodes_view(node.children@);
    }
    let c = match node.field_index("condition") {
        Some(c) => c,
        None => {
            return Err(missing_child("if_statement", "condition"));
        },
    };
    let t = match node.field_index("consequence") {
        Some(t) => t,
        None => {
            return Err(missing_child("if_statement", "consequence"));
        },
    };
    let condition = match transpile_node(&node.children[c]) {
        Ok(condition) => condition,
        Err(e) => {
            return Err(e);
        },
    };
    let consequence = match transpile_node(&node.children[t]) {
        Ok(consequence) => consequence,
        Err(e) => {
            return Err(e);
        },
    };
    match node.field_index("alternative") {
        Some(a) => match transpile_else_clause(&node.children[a]) {
            Ok(alternative) => Ok(call3("std.if", condition, consequence, alternative)),
            Err(e) => Err(e),
        },
        None => Ok(call2("std.if", condition, consequence)),
    }
}

/// An `else` clause: its body.
pub fn transpile_else_clause(node: &SyntaxNode) -> (r: Result<SExpr, TranspileError>)
    ensures
        is_result(r, else_clause(node@)),
    decreases node, 1int, 1int,
{
    transpile_first_named(node)
}

/// A `return` statement: the returned expression.
pub fn transpile_return_statement(node: &SyntaxNode) -> (r: Result<SExpr, TranspileError>)
    ensures
        is_result(r, returned(node@, 0)),
    decreases node, 1int, 0int,
{
    proof {
        lemma_nodes_view(node.children@);
    }
    let mut i: usize = 0;
    while i < node.children.len()
        invariant
            i <= node.children.len(),
            node@.children.len() == node.children@.len(),
            forall|j: int|
                0 <= j < node.children@.len() ==> (#[trigger] node@.children[j])
                    == node.children@[j]@,
            returned(node@, 0) == returned(node@, i as int),
        decreases node.children.len() - i,
    {
        let child = &node.children[i];
        if child.named && !str_eq(child.kind.as_str(), "return") {
            return transpile_node(child);
        }
        i += 1;
    }
    Ok(SExpr::Null)
}

/// A block: its statements that do not become null; none as null, one as
/// it is, several as a sequence.
pub fn transpile_block(node: &SyntaxNode) -> (r: Result<SExpr, TranspileError>)
    ensures
        is_result(
            r,
            match named_children(node@, 0, Seq::empty(), true) {
                Ok(statements) => if statements.len() == 0 {
                    Ok(SExprView::Null)
                } else {
                    Ok(one_or_sequence(statements))
                },
                Err(e) => Err(e),
            },
        ),
    decreases node, 1int, 1int,
{
    match transpile_children(node, true) {
        Ok(statements) => {
            proof {
                lemma_list_view(statements@);
            }
            if statements.len() == 0 {
                Ok(SExpr::Null)
            } else {
                Ok(one_or_seq(statements))
            }
        },
        Err(e) => Err(e),
    }
}

} // verus!
