//! The registry of host-effect functions that plugins provide.
//!
//! The registry knows each function by name and gives it a slot. What is
//! callable behind a slot is the embedding's business: the library decides
//! which slot an opcode means, which capability the call needs and what the
//! request holds.

use crate::text::{str_eq, to_chars};
use vstd::prelude::*;

verus! {

/// A registered function: its opcode name, the kind of capability that a
/// call of it needs, and the names under which its arguments travel.
#[derive(Debug)]
pub struct PluginFunction {
    pub name: String,
    pub kind: String,
    pub params: Vec<String>,
}

/// The registered functions. A function's slot is its position.
pub struct PluginRegistry {
    functions: Vec<PluginFunction>,
}

/// The position of the first `.` in `name`, or the length of `name`.
pub open spec fn namespace_len(name: Seq<char>) -> int
    decreases name.len(),
{
    if name.len() == 0 || name[0] == '.' {
        0
    } else {
        1 + namespace_len(name.drop_first())
    }
}

/// The part of an opcode name before its first `.`; the whole name where
/// it has none.
pub open spec fn namespace_of(name: Seq<char>) -> Seq<char> {
    name.take(namespace_len(name))
}

/// The slot of the function called `name` among `names`.
pub open spec fn slot_of(names: Seq<Seq<char>>, name: Seq<char>) -> Option<int>
    decreases names.len(),
{
    if names.len() == 0 {
        None
    } else if names.last() == name {
        Some(names.len() - 1)
    } else {
        slot_of(names.drop_last(), name)
    }
}

/// Whether none of the names `new` is among `names`.
pub open spec fn none_registered(names: Seq<Seq<char>>, new: Seq<Seq<char>>) -> bool {
    forall|i: int| 0 <= i < new.len() ==> slot_of(names, #[trigger] new[i]) is None
}

/// A slot that is found is a position that holds the name.
pub proof fn lemma_slot_of(names: Seq<Seq<char>>, name: Seq<char>)
    ensures
        match slot_of(names, name) {
            Some(i) => 0 <= i < names.len() && names[i] == name,
            None => forall|j: int| 0 <= j < names.len() ==> names[j] != name,
        },
    decreases names.len(),
{
    if names.len() > 0 && names.last() != name {
        let rest = names.drop_last();
        lemma_slot_of(rest, name);
        if slot_of(rest, name) is None {
            assert forall|j: int| 0 <= j < names.len() implies names[j] != name by {
                if j < rest.len() {
                    assert(rest[j] == names[j]);
                }
            }
        }
    }
}

/// The namespace of `name`.
pub fn namespace(name: &str) -> (r: String)
    ensures
        r@ == namespace_of(name@),
{
    let chars = to_chars(name);
    let mut i: usize = 0;
    proof {
        assert(name@.skip(0) =~= name@);
    }
    while i < chars.len() && chars[i] != '.'
        invariant
            i <= chars.len(),
            chars@ == name@,
            namespace_len(name@) == i + namespace_len(name@.skip(i as int)),
        decreases chars.len() - i,
    {
        proof {
            assert(name@.skip(i as int)[0] == chars@[i as int]);
            assert(name@.skip(i as int).drop_first() =~= name@.skip(i + 1));
        }
        i += 1;
    }
    proof {
        if i < chars.len() {
            assert(name@.skip(i as int)[0] == '.');
        }
    }
    crate::text::from_chars(&chars, 0, i)
}

impl PluginRegistry {
    /// The names of the registered functions, by slot.
    pub closed spec fn names(&self) -> Seq<Seq<char>> {
        Seq::new(self.functions@.len(), |i: int| self.functions@[i].name@)
    }

    /// The capability kinds of the registered functions, by slot.
    pub closed spec fn kinds(&self) -> Seq<Seq<char>> {
        Seq::new(self.functions@.len(), |i: int| self.functions@[i].kind@)
    }

    /// The argument names of the registered functions, by slot.
    pub closed spec fn params(&self) -> Seq<Seq<Seq<char>>> {
        Seq::new(
            self.functions@.len(),
            |i: int| Seq::new(self.functions@[i].params@.len(), |j: int| self.functions@[i].params@[j]@),
        )
    }

    /// Every function has a name, a capability kind and argument names.
    pub proof fn lemma_lengths(&self)
        ensures
            self.names().len() == self.kinds().len() == self.params().len(),
    {
    }

    /// Whether `name` is registered with the given capability kind and
    /// argument names.
    pub open spec fn has(&self, name: Seq<char>, kind: Seq<char>, params: Seq<Seq<char>>) -> bool {
        match slot_of(self.names(), name) {
            Some(i) => self.kinds()[i] == kind && self.params()[i] == params,
            None => false,
        }
    }

    /// The number of registered functions.
    pub fn count(&self) -> (r: usize)
        ensures
            r == self.names().len(),
    {
        self.functions.len()
    }

    /// The slot of the function called `name`.
    pub fn lookup(&self, name: &str) -> (r: Option<usize>)
        ensures
            match r {
                Some(i) => slot_of(self.names(), name@) == Some(i as int) && i < self.names().len(),
                None => slot_of(self.names(), name@) is None,
            },
    {
        let mut i: usize = self.functions.len();
        let ghost names = self.names();
        proof {
            assert(names.take(names.len() as int) =~= names);
        }
        while i > 0
            invariant
                i <= self.functions.len(),
                names == self.names(),
                names.len() == self.functions.len(),
                slot_of(names, name@) == slot_of(names.take(i as int), name@),
            decreases i,
        {
            i -= 1;
            proof {
                assert(names.take(i + 1).drop_last() =~= names.take(i as int));
                assert(names.take(i + 1).last() == self.functions@[i as int].name@);
            }
            if str_eq(self.functions[i].name.as_str(), name) {
                return Some(i);
            }
        }
        None
    }

    /// The function in slot `slot`.
    pub fn function(&self, slot: usize) -> (r: &PluginFunction)
        requires
            slot < self.names().len(),
        ensures
            r.name@ == self.names()[slot as int],
            r.kind@ == self.kinds()[slot as int],
            params_view(r.params@) == self.params()[slot as int],
    {
        let r = &self.functions[slot];
        proof {
            assert(params_view(r.params@) =~= self.params()[slot as int]);
        }
        r
    }

    /// Registers a function under `name`, with the capability kind that a
    /// call of it needs and the names of its arguments, and returns its
    /// slot. A function registered again keeps its slot.
    pub fn register_plugin_function(&mut self, name: &str, kind: &str, params: Vec<String>) -> (slot:
        usize)
        ensures
            slot as int == (match slot_of(old(self).names(), name@) {
                Some(i) => i,
                None => old(self).names().len() as int,
            }),
            final(self).names() == (match slot_of(old(self).names(), name@) {
                Some(i) => old(self).names(),
                None => old(self).names().push(name@),
            }),
            final(self).kinds() == (match slot_of(old(self).names(), name@) {
                Some(i) => old(self).kinds().update(i, kind@),
                None => old(self).kinds().push(kind@),
            }),
            final(self).params() == (match slot_of(old(self).names(), name@) {
                Some(i) => old(self).params().update(i, params_view(params@)),
                None => old(self).params().push(params_view(params@)),
            }),
            slot_of(final(self).names(), name@) == Some(slot as int),
            final(self).has(name@, kind@, params_view(params@)),
            forall|other: Seq<char>|
                other != name@ ==> slot_of(final(self).names(), other) == slot_of(
                    old(self).names(),
                    other,
                ),
            forall|other: Seq<char>, k: Seq<char>, p: Seq<Seq<char>>|
                other != name@ && old(self).has(other, k, p) ==> final(self).has(other, k, p),
            final(self).names().len() == final(self).kinds().len() == final(self).params().len(),
    {
        let entry = PluginFunction { name: name.to_owned(), kind: kind.to_owned(), params };
        match self.lookup(name) {
            Some(i) => {
                self.functions[i] = entry;
                proof {
                    lemma_slot_of(old(self).names(), name@);
                    assert(self.names() =~= old(self).names());
                    assert(self.kinds() =~= old(self).kinds().update(i as int, kind@));
                    assert(self.params() =~= old(self).params().update(
                        i as int,
                        params_view(params@),
                    ));
                    assert forall|other: Seq<char>, k: Seq<char>, p: Seq<Seq<char>>|
                        other != name@ && old(self).has(other, k, p) implies self.has(other, k, p) by {
                        lemma_slot_of(old(self).names(), other);
                    }
                }
                i
            },
            None => {
                self.functions.push(entry);
                proof {
                    assert forall|other: Seq<char>, k: Seq<char>, p: Seq<Seq<char>>|
                        other != name@ && old(self).has(other, k, p) implies self.has(other, k, p) by {
                        lemma_slot_of(old(self).names(), other);
                        assert(self.names() =~= old(self).names().push(name@));
                        assert(self.names().drop_last() =~= old(self).names());
                        assert(self.kinds() =~= old(self).kinds().push(kind@));
                        assert(self.params() =~= old(self).params().push(params_view(params@)));
                    }
                    assert(self.names() =~= old(self).names().push(name@));
                    assert(self.names().drop_last() =~= old(self).names());
                    assert(self.kinds() =~= old(self).kinds().push(kind@));
                    assert(self.params() =~= old(self).params().push(params_view(params@)));
                }
                self.functions.len() - 1
            },
        }
    }
}

/// The views of a list of argument names.
pub open spec fn params_view(params: Seq<String>) -> Seq<Seq<char>> {
    Seq::new(params.len(), |j: int| params[j]@)
}

/// A registry without functions.
pub fn init_registry() -> (r: PluginRegistry)
    ensures
        r.names() == Seq::<Seq<char>>::empty(),
        r.kinds() == Seq::<Seq<char>>::empty(),
        r.params() == Seq::<Seq<Seq<char>>>::empty(),
{
    let r = PluginRegistry { functions: Vec::new() };
    proof {
        assert(r.names() =~= Seq::empty());
        assert(r.kinds() =~= Seq::empty());
        assert(r.params() =~= Seq::empty());
    }
    r
}

} // verus!
