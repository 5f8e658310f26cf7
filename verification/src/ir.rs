//! The S-expression intermediate representation in which verbs are stored.
//!
//! An expression is a literal (null, a boolean, a number, a string, an
//! object) or a list. A list whose first item is a string is a call of the
//! opcode of that name on the remaining items; any other list is a literal
//! list.

use crate::assoc::{keys_of, view_keys};
use crate::number::{bits_of_integer, Number};
use vstd::prelude::*;
use vstd::std_specs::convert::FromSpecImpl;

verus! {

/// An expression. A number is an IEEE-754 double, held as its bit pattern.
/// In an object, the last pair of a key is the one that counts.
#[derive(Debug, PartialEq)]
pub enum SExpr {
    Null,
    Bool(bool),
    Number(u64),
    String(String),
    Object(Vec<(String, SExpr)>),
    List(Vec<SExpr>),
}

/// The mathematical value of an `SExpr`.
pub ghost enum SExprView {
    Null,
    Bool(bool),
    Number(u64),
    String(Seq<char>),
    Object(Seq<(Seq<char>, SExprView)>),
    List(Seq<SExprView>),
}

impl View for SExpr {
    type V = SExprView;

    open spec fn view(&self) -> SExprView {
        expr_view(*self)
    }
}

/// The mathematical value of `e`.
pub open spec fn expr_view(e: SExpr) -> SExprView
    decreases e, 0int,
{
    match e {
        SExpr::Null => SExprView::Null,
        SExpr::Bool(b) => SExprView::Bool(b),
        SExpr::Number(n) => SExprView::Number(n),
        SExpr::String(s) => SExprView::String(s@),
        SExpr::Object(pairs) => SExprView::Object(fields_view(pairs@)),
        SExpr::List(items) => SExprView::List(list_view(items@)),
    }
}

/// The views of a list of expressions.
pub open spec fn list_view(items: Seq<SExpr>) -> Seq<SExprView>
    decreases items, 1int,
{
    if items.len() == 0 {
        Seq::empty()
    } else {
        list_view(items.drop_last()).push(expr_view(items.last()))
    }
}

/// The views of the pairs of an object.
pub open spec fn fields_view(pairs: Seq<(String, SExpr)>) -> Seq<(Seq<char>, SExprView)>
    decreases pairs, 1int,
{
    if pairs.len() == 0 {
        Seq::empty()
    } else {
        fields_view(pairs.drop_last()).push((pairs.last().0@, expr_view(pairs.last().1)))
    }
}

/// The view of a list has the list's length and holds the view of each item.
pub proof fn lemma_list_view(items: Seq<SExpr>)
    ensures
        list_view(items).len() == items.len(),
        forall|i: int| 0 <= i < items.len() ==> (#[trigger] list_view(items)[i]) == items[i]@,
    decreases items.len(),
{
    if items.len() > 0 {
        lemma_list_view(items.drop_last());
    }
}

/// The view of a list of pairs has the list's length, keys and values.
pub proof fn lemma_fields_view(pairs: Seq<(String, SExpr)>)
    ensures
        fields_view(pairs).len() == pairs.len(),
        forall|i: int|
            0 <= i < pairs.len() ==> (#[trigger] fields_view(pairs)[i]) == (pairs[i].0@, pairs[i].1@),
        view_keys(fields_view(pairs)) == keys_of(pairs),
    decreases pairs.len(),
{
    if pairs.len() > 0 {
        lemma_fields_view(pairs.drop_last());
    }
    assert(view_keys(fields_view(pairs)) =~= keys_of(pairs));
}

impl SExprView {
    /// Whether this is a call: a list that starts with a string.
    pub open spec fn is_call(self) -> bool {
        self matches SExprView::List(items) && items.len() > 0 && items[0] is String
    }

    /// The opcode of a call.
    pub open spec fn opcode(self) -> Option<Seq<char>> {
        if self.is_call() {
            Some(self->List_0[0]->String_0)
        } else {
            None
        }
    }

    /// The arguments of a call.
    pub open spec fn args(self) -> Option<Seq<SExprView>> {
        if self.is_call() {
            Some(self->List_0.subrange(1, self->List_0.len() as int))
        } else {
            None
        }
    }
}

impl Clone for SExpr {
    fn clone(&self) -> (r: SExpr)
        ensures
            r@ == self@,
        decreases self,
    {
        match self {
            SExpr::Null => SExpr::Null,
            SExpr::Bool(b) => SExpr::Bool(*b),
            SExpr::Number(n) => SExpr::Number(*n),
            SExpr::String(s) => SExpr::String(s.clone()),
            SExpr::List(items) => {
                let mut out: Vec<SExpr> = Vec::new();
                let mut i: usize = 0;
                while i < items.len()
                    invariant
                        self is List,
                        self->List_0 == *items,
                        i <= items.len(),
                        out@.len() == i,
                        forall|j: int| 0 <= j < i ==> out@[j]@ == items@[j]@,
                    decreases items.len() - i,
                {
                    out.push(items[i].clone());
                    i += 1;
                }
                proof {
                    lemma_list_view(out@);
                    lemma_list_view(items@);
                    assert(list_view(out@) =~= list_view(items@));
                }
                SExpr::List(out)
            },
            SExpr::Object(pairs) => {
                let mut out: Vec<(String, SExpr)> = Vec::new();
                let mut i: usize = 0;
                while i < pairs.len()
                    invariant
                        self is Object,
                        self->Object_0 == *pairs,
                        i <= pairs.len(),
                        out@.len() == i,
                        forall|j: int|
                            0 <= j < i ==> out@[j].0@ == pairs@[j].0@ && out@[j].1@ == pairs@[j].1@,
                    decreases pairs.len() - i,
                {
                    out.push((pairs[i].0.clone(), pairs[i].1.clone()));
                    i += 1;
                }
                proof {
                    lemma_fields_view(out@);
                    lemma_fields_view(pairs@);
                    assert(fields_view(out@) =~= fields_view(pairs@));
                }
                SExpr::Object(out)
            },
        }
    }
}

impl Default for SExpr {
    fn default() -> (r: SExpr)
        ensures
            r@ == SExprView::Null,
    {
        SExpr::Null
    }
}

impl From<bool> for SExpr {
    fn from(value: bool) -> (r: SExpr) {
        SExpr::Bool(value)
    }
}

impl FromSpecImpl<bool> for SExpr {
    open spec fn obeys_from_spec() -> bool {
        true
    }

    open spec fn from_spec(value: bool) -> SExpr {
        SExpr::Bool(value)
    }
}

impl From<i32> for SExpr {
    fn from(value: i32) -> (r: SExpr) {
        SExpr::Number(Number::bits_of(value as i64))
    }
}

impl FromSpecImpl<i32> for SExpr {
    open spec fn obeys_from_spec() -> bool {
        true
    }

    open spec fn from_spec(value: i32) -> SExpr {
        SExpr::Number(bits_of_integer(value as int) as u64)
    }
}

impl From<i64> for SExpr {
    fn from(value: i64) -> (r: SExpr) {
        SExpr::Number(Number::bits_of(value))
    }
}

impl FromSpecImpl<i64> for SExpr {
    open spec fn obeys_from_spec() -> bool {
        true
    }

    open spec fn from_spec(value: i64) -> SExpr {
        SExpr::Number(bits_of_integer(value as int) as u64)
    }
}

impl<'a> From<&'a str> for SExpr {
    fn from(value: &'a str) -> (r: SExpr)
        ensures
            r@ == SExprView::String(value@),
    {
        SExpr::String(value.to_owned())
    }
}

impl<'a> FromSpecImpl<&'a str> for SExpr {
    open spec fn obeys_from_spec() -> bool {
        false
    }

    open spec fn from_spec(value: &'a str) -> SExpr {
        SExpr::Null
    }
}

impl From<String> for SExpr {
    fn from(value: String) -> (r: SExpr) {
        SExpr::String(value)
    }
}

impl FromSpecImpl<String> for SExpr {
    open spec fn obeys_from_spec() -> bool {
        true
    }

    open spec fn from_spec(value: String) -> SExpr {
        SExpr::String(value)
    }
}

impl SExpr {
    /// The number literal for the integer `n`: the double nearest to it.
    pub fn integer(n: i64) -> (r: SExpr)
        ensures
            r@ == SExprView::Number(bits_of_integer(n as int) as u64),
    {
        SExpr::Number(Number::bits_of(n))
    }

    /// The null literal.
    pub fn null() -> (r: SExpr)
        ensures
            r@ == SExprView::Null,
    {
        SExpr::Null
    }

    /// A boolean literal.
    pub fn bool(value: bool) -> (r: SExpr)
        ensures
            r@ == SExprView::Bool(value),
    {
        SExpr::Bool(value)
    }

    /// A number literal, given by the bit pattern of the double.
    pub fn number(bits: u64) -> (r: SExpr)
        ensures
            r@ == SExprView::Number(bits),
    {
        SExpr::Number(bits)
    }

    /// A string literal.
    pub fn string(value: &str) -> (r: SExpr)
        ensures
            r@ == SExprView::String(value@),
    {
        SExpr::String(value.to_owned())
    }

    /// A literal list, or a call if `items` starts with a string.
    pub fn list(items: Vec<SExpr>) -> (r: SExpr)
        ensures
            r@ == SExprView::List(list_view(items@)),
    {
        SExpr::List(items)
    }

    /// The call of `opcode` on `args`.
    pub fn call(opcode: &str, args: Vec<SExpr>) -> (r: SExpr)
        ensures
            r@ == SExprView::List(seq![SExprView::String(opcode@)] + list_view(args@)),
            r@.is_call(),
            r@.opcode() == Some(opcode@),
            r@.args() == Some(list_view(args@)),
    {
        let mut args = args;
        let mut list: Vec<SExpr> = Vec::new();
        list.push(SExpr::String(opcode.to_owned()));
        let ghost given = args@;
        list.append(&mut args);
        proof {
            lemma_list_view(list@);
            lemma_list_view(given);
            let whole = seq![SExprView::String(opcode@)] + list_view(given);
            assert(list_view(list@) =~= whole);
            assert(whole.subrange(1, whole.len() as int) =~= list_view(given));
        }
        SExpr::List(list)
    }

    /// Whether this is the null literal.
    pub fn is_null(&self) -> (r: bool)
        ensures
            r == (self@ is Null),
    {
        matches!(self, SExpr::Null)
    }

    /// Whether this is a call: a list that starts with a string.
    pub fn is_call(&self) -> (r: bool)
        ensures
            r == self@.is_call(),
    {
        match self {
            SExpr::List(items) => {
                proof {
                    lemma_list_view(items@);
                }
                items.len() > 0 && matches!(&items[0], SExpr::String(_))
            },
            _ => false,
        }
    }

    /// The opcode of a call.
    pub fn opcode(&self) -> (r: Option<&str>)
        ensures
            match r {
                Some(name) => self@.opcode() == Some(name@),
                None => self@.opcode() is None,
            },
    {
        match self {
            SExpr::List(items) => {
                proof {
                    lemma_list_view(items@);
                }
                if items.len() > 0 {
                    match &items[0] {
                        SExpr::String(s) => Some(s.as_str()),
                        _ => None,
                    }
                } else {
                    None
                }
            },
            _ => None,
        }
    }

    /// The arguments of a call.
    pub fn args(&self) -> (r: Option<&[SExpr]>)
        ensures
            match r {
                Some(rest) => self@.args() == Some(list_view(rest@)),
                None => self@.args() is None,
            },
    {
        match self {
            SExpr::List(items) => {
                proof {
                    lemma_list_view(items@);
                }
                if items.len() > 0 && matches!(&items[0], SExpr::String(_)) {
                    let rest = vstd::slice::slice_subrange(items.as_slice(), 1, items.len());
                    proof {
                        lemma_list_view(rest@);
                        assert(list_view(rest@) =~= list_view(items@).subrange(
                            1,
                            items@.len() as int,
                        ));
                    }
                    Some(rest)
                } else {
                    None
                }
            },
            _ => None,
        }
    }

    /// The truth value of a boolean literal.
    pub fn as_bool(&self) -> (r: Option<bool>)
        ensures
            r == (match self@ {
                SExprView::Bool(b) => Some(b),
                _ => None,
            }),
    {
        match self {
            SExpr::Bool(b) => Some(*b),
            _ => None,
        }
    }

    /// The bit pattern of a number literal.
    pub fn as_number(&self) -> (r: Option<u64>)
        ensures
            r == (match self@ {
                SExprView::Number(n) => Some(n),
                _ => None,
            }),
    {
        match self {
            SExpr::Number(n) => Some(*n),
            _ => None,
        }
    }

    /// The text of a string literal.
    pub fn as_str(&self) -> (r: Option<&str>)
        ensures
            match r {
                Some(s) => self@ == SExprView::String(s@),
                None => !(self@ is String),
            },
    {
        match self {
            SExpr::String(s) => Some(s.as_str()),
            _ => None,
        }
    }

    /// The items of a list.
    pub fn as_list(&self) -> (r: Option<&[SExpr]>)
        ensures
            match r {
                Some(items) => self@ == SExprView::List(list_view(items@)),
                None => !(self@ is List),
            },
    {
        match self {
            SExpr::List(items) => Some(items.as_slice()),
            _ => None,
        }
    }

    /// The pairs of an object.
    pub fn as_object(&self) -> (r: Option<&Vec<(String, SExpr)>>)
        ensures
            match r {
                Some(pairs) => self@ == SExprView::Object(fields_view(pairs@)),
                None => !(self@ is Object),
            },
    {
        match self {
            SExpr::Object(pairs) => Some(pairs),
            _ => None,
        }
    }
}

} // verus!
