//! Values: the JSON data that entities hold as properties, that verbs take
//! and return and that crosses the plugin boundary, and, while a verb runs,
//! the functions that it creates.

use crate::assoc::{find, keys_of, lookup, view_keys, with_entry};
use crate::number::Number;
use crate::text::str_eq;
use vstd::prelude::*;

verus! {

/// A value. An object is a list of key-value pairs in which the last pair
/// of a key is the one that counts. A function is known by its number in
/// the run that created it, and means nothing outside that run.
#[derive(Debug, PartialEq)]
pub enum SValue {
    Null,
    Bool(bool),
    Number(Number),
    String(String),
    Array(Vec<SValue>),
    Object(Vec<(String, SValue)>),
    Function(usize),
}

/// The mathematical value of a `SValue`.
pub ghost enum SValueView {
    Null,
    Bool(bool),
    Number(Number),
    String(Seq<char>),
    Array(Seq<SValueView>),
    Object(Seq<(Seq<char>, SValueView)>),
    Function(usize),
}

impl View for SValue {
    type V = SValueView;

    open spec fn view(&self) -> SValueView {
        value_view(*self)
    }
}

/// The mathematical value of `j`.
pub open spec fn value_view(j: SValue) -> SValueView
    decreases j, 0int,
{
    match j {
        SValue::Null => SValueView::Null,
        SValue::Bool(b) => SValueView::Bool(b),
        SValue::Number(n) => SValueView::Number(n),
        SValue::String(s) => SValueView::String(s@),
        SValue::Array(items) => SValueView::Array(items_view(items@)),
        SValue::Object(pairs) => SValueView::Object(pairs_view(pairs@)),
        SValue::Function(f) => SValueView::Function(f),
    }
}

/// The views of a list of values.
pub open spec fn items_view(items: Seq<SValue>) -> Seq<SValueView>
    decreases items, 1int,
{
    if items.len() == 0 {
        Seq::empty()
    } else {
        items_view(items.drop_last()).push(value_view(items.last()))
    }
}

/// The views of a list of key-value pairs.
pub open spec fn pairs_view(pairs: Seq<(String, SValue)>) -> Seq<(Seq<char>, SValueView)>
    decreases pairs, 1int,
{
    if pairs.len() == 0 {
        Seq::empty()
    } else {
        pairs_view(pairs.drop_last()).push((pairs.last().0@, value_view(pairs.last().1)))
    }
}

/// The view of a list has the list's length and holds the view of each item.
pub broadcast proof fn lemma_items_view(items: Seq<SValue>)
    ensures
        #[trigger] items_view(items).len() == items.len(),
        forall|i: int| 0 <= i < items.len() ==> (#[trigger] items_view(items)[i]) == items[i]@,
    decreases items.len(),
{
    if items.len() > 0 {
        lemma_items_view(items.drop_last());
    }
}

/// The view of a list of pairs has the list's length, keys and values.
pub broadcast proof fn lemma_pairs_view(pairs: Seq<(String, SValue)>)
    ensures
        #[trigger] pairs_view(pairs).len() == pairs.len(),
        forall|i: int|
            0 <= i < pairs.len() ==> (#[trigger] pairs_view(pairs)[i]) == (pairs[i].0@, pairs[i].1@),
        view_keys(pairs_view(pairs)) == keys_of(pairs),
    decreases pairs.len(),
{
    if pairs.len() > 0 {
        lemma_pairs_view(pairs.drop_last());
    }
    assert(view_keys(pairs_view(pairs)) =~= keys_of(pairs));
}

impl SValueView {
    /// The value of field `key` of an object; `None` for a missing field
    /// and for anything that is not an object.
    pub open spec fn field(self, key: Seq<char>) -> Option<SValueView> {
        match self {
            SValueView::Object(pairs) => lookup(pairs, key),
            _ => None,
        }
    }

    /// The integer that this value is, if it is an integer number.
    pub open spec fn as_int(self) -> Option<i64> {
        match self {
            SValueView::Number(Number::Int(n)) => Some(n),
            _ => None,
        }
    }

    /// The text that this value is, if it is a string.
    pub open spec fn as_text(self) -> Option<Seq<char>> {
        match self {
            SValueView::String(s) => Some(s),
            _ => None,
        }
    }
}

/// Whether a value is plain data: no function occurs in it.
pub open spec fn is_data(v: SValueView) -> bool
    decreases v,
{
    match v {
        SValueView::Function(_) => false,
        SValueView::Array(items) => forall|i: int| 0 <= i < items.len() ==> is_data(#[trigger] items[i]),
        SValueView::Object(pairs) => forall|i: int|
            0 <= i < pairs.len() ==> is_data(#[trigger] pairs[i].1),
        _ => true,
    }
}

/// A list is plain data exactly when each item is, and an object when
/// each of its values is.
pub proof fn lemma_is_data(v: SValueView)
    ensures
        v matches SValueView::Array(items) ==> (is_data(v) <==> all_data(items)),
        v matches SValueView::Object(pairs) ==> (is_data(v) <==> forall|i: int|
            0 <= i < pairs.len() ==> is_data(#[trigger] pairs[i].1)),
{
    match v {
        SValueView::Array(items) => {
            assert(v->Array_0 == items);
            assert forall|i: int| 0 <= i < items.len() implies decreases_to!(v => v->Array_0[i]) by {}
        },
        SValueView::Object(pairs) => {
            assert(v->Object_0 == pairs);
            assert forall|i: int| 0 <= i < pairs.len() implies decreases_to!(v => v->Object_0[i].1) by {}
        },
        _ => {},
    }
}

/// Whether each value of a list is plain data.
pub open spec fn all_data(items: Seq<SValueView>) -> bool {
    forall|i: int| 0 <= i < items.len() ==> is_data(#[trigger] items[i])
}

impl Clone for SValue {
    fn clone(&self) -> (r: SValue)
        ensures
            r@ == self@,
        decreases self,
    {
        match self {
            SValue::Null => SValue::Null,
            SValue::Bool(b) => SValue::Bool(*b),
            SValue::Number(n) => SValue::Number(*n),
            SValue::String(s) => SValue::String(s.clone()),
            SValue::Function(f) => SValue::Function(*f),
            SValue::Array(items) => {
                let mut out: Vec<SValue> = Vec::new();
                let mut i: usize = 0;
                while i < items.len()
                    invariant
                        self is Array,
                        self->Array_0 == *items,
                        i <= items.len(),
                        out@.len() == i,
                        forall|j: int| 0 <= j < i ==> out@[j]@ == items@[j]@,
                    decreases items.len() - i,
                {
                    out.push(items[i].clone());
                    i += 1;
                }
                proof {
                    lemma_items_view(out@);
                    lemma_items_view(items@);
                    assert(items_view(out@) =~= items_view(items@));
                }
                SValue::Array(out)
            },
            SValue::Object(pairs) => {
                let mut out: Vec<(String, SValue)> = Vec::new();
                let mut i: usize = 0;
                while i < pairs.len()
                    invariant
                        self is Object,
                        self->Object_0 == *pairs,
                        i <= pairs.len(),
                        out@.len() == i,
                        forall|j: int|
                            0 <= j < i ==> out@[j].0@ == pairs@[j].0@ && out@[j].1@ == pairs@[j].1@,
                    decreases pairs.len() - i,
                {
                    out.push((pairs[i].0.clone(), pairs[i].1.clone()));
                    i += 1;
                }
                proof {
                    lemma_pairs_view(out@);
                    lemma_pairs_view(pairs@);
                    assert(pairs_view(out@) =~= pairs_view(pairs@));
                }
                SValue::Object(out)
            },
        }
    }
}

impl SValue {
    /// A string value holding `s`.
    pub fn string(s: &str) -> (r: SValue)
        ensures
            r@ == SValueView::String(s@),
    {
        SValue::String(s.to_owned())
    }

    /// An integer value.
    pub fn integer(n: i64) -> (r: SValue)
        ensures
            r@ == SValueView::Number(Number::Int(n)),
    {
        SValue::Number(Number::Int(n))
    }

    /// An object without fields.
    pub fn object() -> (r: SValue)
        ensures
            r@ == SValueView::Object(Seq::empty()),
    {
        SValue::Object(Vec::new())
    }

    /// Whether this value is plain data: no function occurs in it.
    pub fn is_data(&self) -> (r: bool)
        ensures
            r == is_data(self@),
        decreases self,
    {
        match self {
            SValue::Function(_) => false,
            SValue::Array(items) => {
                proof {
                    lemma_items_view(items@);
                    lemma_is_data(self@);
                }
                let mut i: usize = 0;
                while i < items.len()
                    invariant
                        self is Array,
                        self->Array_0 == *items,
                        self@ == SValueView::Array(items_view(items@)),
                        is_data(self@) <==> all_data(items_view(items@)),
                        items_view(items@).len() == items.len(),
                        forall|j: int|
                            0 <= j < items.len() ==> (#[trigger] items_view(items@)[j]) == items@[j]@,
                        i <= items.len(),
                        forall|j: int| 0 <= j < i ==> is_data(items@[j]@),
                    decreases items.len() - i,
                {
                    if !items[i].is_data() {
                        proof {
                            assert(!is_data(items_view(items@)[i as int]));
                        }
                        return false;
                    }
                    i += 1;
                }
                true
            },
            SValue::Object(pairs) => {
                proof {
                    lemma_pairs_view(pairs@);
                    lemma_is_data(self@);
                }
                let mut i: usize = 0;
                while i < pairs.len()
                    invariant
                        self is Object,
                        self->Object_0 == *pairs,
                        self@ == SValueView::Object(pairs_view(pairs@)),
                        is_data(self@) <==> forall|k: int|
                            0 <= k < pairs_view(pairs@).len() ==> is_data(
                                #[trigger] pairs_view(pairs@)[k].1,
                            ),
                        pairs_view(pairs@).len() == pairs.len(),
                        forall|j: int|
                            0 <= j < pairs.len() ==> (#[trigger] pairs_view(pairs@)[j]) == (
                                pairs@[j].0@,
                                pairs@[j].1@,
                            ),
                        i <= pairs.len(),
                        forall|j: int| 0 <= j < i ==> is_data(pairs@[j].1@),
                    decreases pairs.len() - i,
                {
                    if !pairs[i].1.is_data() {
                        proof {
                            assert(!is_data(pairs_view(pairs@)[i as int].1));
                        }
                        return false;
                    }
                    i += 1;
                }
                true
            },
            _ => true,
        }
    }

    /// Whether this is `null`.
    pub fn is_null(&self) -> (r: bool)
        ensures
            r == (self@ is Null),
    {
        matches!(self, SValue::Null)
    }

    /// The field `key` of an object.
    pub fn get(&self, key: &str) -> (r: Option<&SValue>)
        ensures
            match r {
                Some(v) => self@.field(key@) == Some(v@),
                None => self@.field(key@) is None,
            },
    {
        proof {
            if self is Object {
                lemma_pairs_view(self->Object_0@);
            }
            if self is Array {
                lemma_items_view(self->Array_0@);
            }
        }
        match self {
            SValue::Object(pairs) => match find(pairs, key) {
                Some(i) => Some(&pairs[i].1),
                None => None,
            },
            _ => None,
        }
    }

    /// The integer that this value is, if it is an integer number.
    pub fn as_i64(&self) -> (r: Option<i64>)
        ensures
            r == self@.as_int(),
    {
        match self {
            SValue::Number(Number::Int(n)) => Some(*n),
            _ => None,
        }
    }

    /// The text that this value is, if it is a string.
    pub fn as_str(&self) -> (r: Option<&str>)
        ensures
            match r {
                Some(s) => self@.as_text() == Some(s@),
                None => self@.as_text() is None,
            },
    {
        match self {
            SValue::String(s) => Some(s.as_str()),
            _ => None,
        }
    }

    /// The truth value that this value is, if it is a boolean.
    pub fn as_bool(&self) -> (r: Option<bool>)
        ensures
            r == (match self@ {
                SValueView::Bool(b) => Some(b),
                _ => None,
            }),
    {
        match self {
            SValue::Bool(b) => Some(*b),
            _ => None,
        }
    }

    /// The items of an array.
    pub fn as_array(&self) -> (r: Option<&Vec<SValue>>)
        ensures
            match r {
                Some(items) => self@ == SValueView::Array(items_view(items@)),
                None => !(self@ is Array),
            },
    {
        proof {
            if self is Object {
                lemma_pairs_view(self->Object_0@);
            }
            if self is Array {
                lemma_items_view(self->Array_0@);
            }
        }
        match self {
            SValue::Array(items) => Some(items),
            _ => None,
        }
    }

    /// Whether two values are the same value.
    pub fn same(&self, other: &SValue) -> (r: bool)
        ensures
            r == (self@ == other@),
        decreases self,
    {
        match self {
            SValue::Null => matches!(other, SValue::Null),
            SValue::Bool(a) => match other {
                SValue::Bool(b) => *a == *b,
                _ => false,
            },
            SValue::Number(a) => match other {
                SValue::Number(b) => *a == *b,
                _ => false,
            },
            SValue::String(a) => match other {
                SValue::String(b) => str_eq(a.as_str(), b.as_str()),
                _ => false,
            },
            SValue::Function(a) => match other {
                SValue::Function(b) => *a == *b,
                _ => false,
            },
            SValue::Array(a) => match other {
                SValue::Array(b) => {
                    proof {
                        lemma_items_view(a@);
                        lemma_items_view(b@);
                    }
                    if a.len() != b.len() {
                        assert(items_view(a@).len() != items_view(b@).len());
                        return false;
                    }
                    let mut i: usize = 0;
                    while i < a.len()
                        invariant
                            self is Array,
                            self->Array_0 == *a,
                            self@ == SValueView::Array(items_view(a@)),
                            other@ == SValueView::Array(items_view(b@)),
                            items_view(a@).len() == a.len(),
                            items_view(b@).len() == b.len(),
                            forall|j: int| 0 <= j < a.len() ==> (#[trigger] items_view(a@)[j]) == a@[j]@,
                            forall|j: int| 0 <= j < b.len() ==> (#[trigger] items_view(b@)[j]) == b@[j]@,
                            a.len() == b.len(),
                            i <= a.len(),
                            forall|j: int| 0 <= j < i ==> a@[j]@ == b@[j]@,
                        decreases a.len() - i,
                    {
                        if !a[i].same(&b[i]) {
                            assert(items_view(a@)[i as int] != items_view(b@)[i as int]);
                            return false;
                        }
                        i += 1;
                    }
                    assert(items_view(a@) =~= items_view(b@));
                    true
                },
                _ => false,
            },
            SValue::Object(a) => match other {
                SValue::Object(b) => {
                    proof {
                        lemma_pairs_view(a@);
                        lemma_pairs_view(b@);
                    }
                    if a.len() != b.len() {
                        assert(pairs_view(a@).len() != pairs_view(b@).len());
                        return false;
                    }
                    let mut i: usize = 0;
                    while i < a.len()
                        invariant
                            self is Object,
                            self->Object_0 == *a,
                            self@ == SValueView::Object(pairs_view(a@)),
                            other@ == SValueView::Object(pairs_view(b@)),
                            pairs_view(a@).len() == a.len(),
                            pairs_view(b@).len() == b.len(),
                            forall|j: int|
                                0 <= j < a.len() ==> (#[trigger] pairs_view(a@)[j]) == (
                                    a@[j].0@,
                                    a@[j].1@,
                                ),
                            forall|j: int|
                                0 <= j < b.len() ==> (#[trigger] pairs_view(b@)[j]) == (
                                    b@[j].0@,
                                    b@[j].1@,
                                ),
                            a.len() == b.len(),
                            i <= a.len(),
                            forall|j: int|
                                0 <= j < i ==> a@[j].0@ == b@[j].0@ && a@[j].1@ == b@[j].1@,
                        decreases a.len() - i,
                    {
                        if !str_eq(a[i].0.as_str(), b[i].0.as_str()) || !a[i].1.same(&b[i].1) {
                            assert(pairs_view(a@)[i as int] != pairs_view(b@)[i as int]);
                            return false;
                        }
                        i += 1;
                    }
                    assert(pairs_view(a@) =~= pairs_view(b@));
                    true
                },
                _ => false,
            },
        }
    }
}

/// Whether each value of `items` is plain data.
pub fn all_data_in(items: &Vec<SValue>) -> (r: bool)
    ensures
        r == all_data(items_view(items@)),
{
    proof {
        lemma_items_view(items@);
    }
    let mut i: usize = 0;
    while i < items.len()
        invariant
            items_view(items@).len() == items.len(),
            forall|j: int| 0 <= j < items.len() ==> (#[trigger] items_view(items@)[j]) == items@[j]@,
            i <= items.len(),
            forall|j: int| 0 <= j < i ==> is_data(items@[j]@),
        decreases items.len() - i,
    {
        if !items[i].is_data() {
            assert(!is_data(items_view(items@)[i as int]));
            return false;
        }
        i += 1;
    }
    true
}

/// Binds `key` to `value` in `pairs`: in place where `key` was bound, else
/// at the end.
pub fn set_entry(pairs: &mut Vec<(String, SValue)>, key: &str, value: SValue)
    ensures
        pairs_view(final(pairs)@) == with_entry(pairs_view(old(pairs)@), key@, value@),
{
    proof {
        lemma_pairs_view(pairs@);
    }
    match find(pairs, key) {
        Some(i) => {
            pairs[i] = (key.to_owned(), value);
        },
        None => {
            pairs.push((key.to_owned(), value));
        },
    }
    proof {
        lemma_pairs_view(pairs@);
        assert(pairs_view(pairs@) =~= with_entry(pairs_view(old(pairs)@), key@, value@));
    }
}

/// A copy of each value of a list.
pub fn copy_items(items: &Vec<SValue>) -> (r: Vec<SValue>)
    ensures
        items_view(r@) == items_view(items@),
{
    let mut copies: Vec<SValue> = Vec::new();
    let mut i: usize = 0;
    while i < items.len()
        invariant
            i <= items.len(),
            copies@.len() == i,
            forall|j: int| 0 <= j < i ==> copies@[j]@ == items@[j]@,
        decreases items.len() - i,
    {
        copies.push(items[i].clone());
        i += 1;
    }
    proof {
        lemma_items_view(copies@);
        lemma_items_view(items@);
        assert(items_view(copies@) =~= items_view(items@));
    }
    copies
}

} // verus!
