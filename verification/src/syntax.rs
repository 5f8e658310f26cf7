//! Syntax trees as the front end is handed them.
//!
//! A tree is what a parser made of a source text: each node has a kind, the
//! text that it spans and its children, some of which hang under a field
//! name. The library does not parse; it reads such trees.

use crate::text::str_eq;
use vstd::prelude::*;

verus! {

/// A node of a syntax tree.
#[derive(Debug, PartialEq)]
pub struct SyntaxNode {
    /// The kind of the node, such as `binary_expression`.
    pub kind: String,
    /// The source text that the node spans.
    pub text: String,
    /// Whether the node is named in the grammar; punctuation is not.
    pub named: bool,
    /// Whether the node or a node below it is a syntax error.
    pub error: bool,
    /// The field of the parent under which the node hangs, if any.
    pub field: Option<String>,
    /// For a number literal, the bit pattern of the double that its text
    /// denotes, where it denotes one.
    pub number: Option<u64>,
    /// The children, in source order.
    pub children: Vec<SyntaxNode>,
}

/// The mathematical value of a `SyntaxNode`.
pub ghost struct NodeView {
    pub kind: Seq<char>,
    pub text: Seq<char>,
    pub named: bool,
    pub error: bool,
    pub field: Option<Seq<char>>,
    pub number: Option<u64>,
    pub children: Seq<NodeView>,
}

impl View for SyntaxNode {
    type V = NodeView;

    open spec fn view(&self) -> NodeView {
        node_view(*self)
    }
}

/// The mathematical value of `n`.
pub open spec fn node_view(n: SyntaxNode) -> NodeView
    decreases n, 0int,
{
    NodeView {
        kind: n.kind@,
        text: n.text@,
        named: n.named,
        error: n.error,
        field: match n.field {
            Some(f) => Some(f@),
            None => None,
        },
        number: n.number,
        children: nodes_view(n.children@),
    }
}

/// The views of a list of nodes.
pub open spec fn nodes_view(nodes: Seq<SyntaxNode>) -> Seq<NodeView>
    decreases nodes, 1int,
{
    if nodes.len() == 0 {
        Seq::empty()
    } else {
        nodes_view(nodes.drop_last()).push(node_view(nodes.last()))
    }
}

/// The view of a list has the list's length and holds the view of each
/// node.
pub proof fn lemma_nodes_view(nodes: Seq<SyntaxNode>)
    ensures
        nodes_view(nodes).len() == nodes.len(),
        forall|i: int| 0 <= i < nodes.len() ==> (#[trigger] nodes_view(nodes)[i]) == nodes[i]@,
    decreases nodes.len(),
{
    if nodes.len() > 0 {
        lemma_nodes_view(nodes.drop_last());
    }
}

/// The position of the first of `children[from..]` that hangs under the
/// field `name`, or -1.
pub open spec fn field_position(children: Seq<NodeView>, name: Seq<char>, from: int) -> int
    decreases children.len() - from,
{
    if from < 0 || from >= children.len() {
        -1
    } else if children[from].field == Some(name) {
        from
    } else {
        field_position(children, name, from + 1)
    }
}

/// The position of the first of `children[from..]` that is named, or -1.
pub open spec fn named_position(children: Seq<NodeView>, from: int) -> int
    decreases children.len() - from,
{
    if from < 0 || from >= children.len() {
        -1
    } else if children[from].named {
        from
    } else {
        named_position(children, from + 1)
    }
}

impl NodeView {
    /// The position of the first child that hangs under the field `name`,
    /// or -1.
    pub open spec fn field(self, name: Seq<char>) -> int {
        field_position(self.children, name, 0)
    }

    /// The position of the first child that is named, or -1.
    pub open spec fn first_named(self) -> int {
        named_position(self.children, 0)
    }
}

impl SyntaxNode {
    /// A leaf: a node without children that hangs under no field.
    pub fn leaf(kind: &str, text: &str, named: bool) -> (r: SyntaxNode)
        ensures
            r@ == (NodeView {
                kind: kind@,
                text: text@,
                named,
                error: false,
                field: None,
                number: None,
                children: Seq::empty(),
            }),
    {
        SyntaxNode {
            kind: kind.to_owned(),
            text: text.to_owned(),
            named,
            error: false,
            field: None,
            number: None,
            children: Vec::new(),
        }
    }

    /// The position of the first child that hangs under the field `name`.
    pub fn field_index(&self, name: &str) -> (r: Option<usize>)
        ensures
            match r {
                Some(i) => i < self.children@.len() && self@.field(name@) == i,
                None => self@.field(name@) == -1,
            },
    {
        proof {
            lemma_nodes_view(self.children@);
        }
        let mut i: usize = 0;
        while i < self.children.len()
            invariant
                i <= self.children.len(),
                self@.children.len() == self.children@.len(),
                forall|j: int|
                    0 <= j < self.children@.len() ==> (#[trigger] self@.children[j])
                        == self.children@[j]@,
                self@.field(name@) == field_position(self@.children, name@, i as int),
            decreases self.children.len() - i,
        {
            let hit = match &self.children[i].field {
                Some(f) => str_eq(f.as_str(), name),
                None => false,
            };
            if hit {
                return Some(i);
            }
            i += 1;
        }
        None
    }

    /// The position of the first child that is named.
    pub fn first_named_index(&self) -> (r: Option<usize>)
        ensures
            match r {
                Some(i) => i < self.children@.len() && self@.first_named() == i,
                None => self@.first_named() == -1,
            },
    {
        proof {
            lemma_nodes_view(self.children@);
        }
        let mut i: usize = 0;
        while i < self.children.len()
            invariant
                i <= self.children.len(),
                self@.children.len() == self.children@.len(),
                forall|j: int|
                    0 <= j < self.children@.len() ==> (#[trigger] self@.children[j])
                        == self.children@[j]@,
                self@.first_named() == named_position(self@.children, i as int),
            decreases self.children.len() - i,
        {
            if self.children[i].named {
                return Some(i);
            }
            i += 1;
        }
        None
    }
}

} // verus!
