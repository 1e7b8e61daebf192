//! The interner: every string gets a handle, the same string the same
//! handle.
use crate::ids::StrId;
use crate::seq_set::{distinct, lemma_with_item, with_item};
use crate::str_map::{has_key, lemma_put, value_of, StrMap};
use crate::text::Text;
use indexmap::IndexSet;
use rustc_hash::FxHasher;
use std::hash::BuildHasherDefault;
use vstd::prelude::*;
use vstd::string::*;

verus! {

/// `indexmap`'s `IndexSet`: a set that keeps its items in the order in
/// which they came.
#[verifier::external_type_specification]
#[verifier::external_body]
#[verifier::reject_recursive_types(T)]
#[verifier::reject_recursive_types(S)]
pub struct ExIndexSet<T, S>(IndexSet<T, S>);

/// `rustc_hash`'s `FxHasher`.
#[verifier::external_type_specification]
#[verifier::external_body]
pub struct ExFxHasher(FxHasher);

/// std's `BuildHasherDefault`.
#[verifier::external_type_specification]
#[verifier::external_body]
#[verifier::reject_recursive_types(H)]
pub struct ExBuildHasherDefault<H>(BuildHasherDefault<H>);

/// The strings that an `IndexSet` holds, in the order of their insertion.
pub uninterp spec fn interned(set: IndexSet<String, BuildHasherDefault<FxHasher>>) -> Seq<Text>;

/// `IndexSet::default()`: a set without items.
#[verifier::external_body]
fn set_new() -> (set: IndexSet<String, BuildHasherDefault<FxHasher>>)
    ensures
        interned(set) == Seq::<Text>::empty(),
{
    IndexSet::default()
}

/// `IndexSet::get_index_of`: the position of the item that equals
/// `value`; none if no item does.
#[verifier::external_body]
fn set_get_index_of(set: &IndexSet<String, BuildHasherDefault<FxHasher>>, value: &str) -> (r:
    Option<usize>)
    ensures
        match r {
            Some(i) => i < interned(*set).len() && interned(*set)[i as int] == value@,
            None => !interned(*set).contains(value@),
        },
{
    set.get_index_of(value)
}

/// `IndexSet::insert_full`: where an item equals `value`, the set stays
/// as it is and the result is that item's position and `false`; else
/// `value` becomes the last item and the result is its position and
/// `true`.
#[verifier::external_body]
fn set_insert_full(set: &mut IndexSet<String, BuildHasherDefault<FxHasher>>, value: String) -> (r:
    (usize, bool))
    ensures
        r.1 == !interned(*old(set)).contains(value@),
        r.1 ==> interned(*final(set)) == interned(*old(set)).push(value@) && r.0 == interned(
            *old(set),
        ).len(),
        !r.1 ==> interned(*final(set)) == interned(*old(set)) && r.0 < interned(*old(set)).len()
            && interned(*old(set))[r.0 as int] == value@,
{
    set.insert_full(value)
}

/// `IndexSet::len`: the number of items.
#[verifier::external_body]
fn set_len(set: &IndexSet<String, BuildHasherDefault<FxHasher>>) -> (n: usize)
    ensures
        n == interned(*set).len(),
{
    set.len()
}

/// `IndexSet::get_index`: the item at the position; none if the position
/// is not below the number of items.
#[verifier::external_body]
fn set_get_index(set: &IndexSet<String, BuildHasherDefault<FxHasher>>, index: usize) -> (r: Option<
    &String,
>)
    ensures
        match r {
            Some(s) => index < interned(*set).len() && s@ == interned(*set)[index as int],
            None => index >= interned(*set).len(),
        },
{
    set.get_index(index)
}

/// The number of strings that every interner knows from the start.
pub const BUILTIN_COUNT: usize = 42;

/// The string at position `i` among those that every interner knows from
/// the start.
pub open spec fn builtin_name(i: int) -> Text {
    if i == 0 {
        ""@
    } else if i == 1 {
        "this"@
    } else if i == 2 {
        "<anonymous function>"@
    } else if i == 3 {
        "isset"@
    } else if i == 4 {
        "unset"@
    } else if i == 5 {
        "HH\\MemberOf"@
    } else if i == 6 {
        "echo"@
    } else if i == 7 {
        "__construct"@
    } else if i == 8 {
        "<data attribute>"@
    } else if i == 9 {
        "<aria attribute>"@
    } else if i == 10 {
        "HH\\AnyArray"@
    } else if i == 11 {
        "HH\\KeyedContainer"@
    } else if i == 12 {
        "HH\\Container"@
    } else if i == 13 {
        "__PHP_Incomplete_Class"@
    } else if i == 14 {
        "XHPChild"@
    } else if i == 15 {
        "HH\\Awaitable"@
    } else if i == 16 {
        "HH\\BuiltinEnum"@
    } else if i == 17 {
        "HH\\BuiltinEnumClass"@
    } else if i == 18 {
        "static"@
    } else if i == 19 {
        "self"@
    } else if i == 20 {
        "HH\\FormatString"@
    } else if i == 21 {
        "HH\\EnumClass\\Label"@
    } else if i == 22 {
        "HH\\Traversable"@
    } else if i == 23 {
        "HH\\KeyedTraversable"@
    } else if i == 24 {
        "HH\\Lib\\Regex\\Pattern"@
    } else if i == 25 {
        "HH\\Iterator"@
    } else if i == 26 {
        "HH\\KeyedIterator"@
    } else if i == 27 {
        "HH\\AsyncIterator"@
    } else if i == 28 {
        "HH\\AsyncKeyedIterator"@
    } else if i == 29 {
        "HH\\Shapes"@
    } else if i == 30 {
        "stdClass"@
    } else if i == 31 {
        "SimpleXMLElement"@
    } else if i == 32 {
        "HH\\Asio\\join"@
    } else if i == 33 {
        "include"@
    } else if i == 34 {
        "HH\\TypeStructure"@
    } else if i == 35 {
        "HH\\invariant"@
    } else if i == 36 {
        "coerce"@
    } else if i == 37 {
        "assert"@
    } else if i == 38 {
        "assertAll"@
    } else if i == 39 {
        "keyExists"@
    } else if i == 40 {
        "removeKey"@
    } else {
        "HH\\Lib\\Math\\INT32_MAX"@
    }
}

/// The strings that every interner knows from the start.
pub open spec fn builtin_names() -> Seq<Text> {
    Seq::new(BUILTIN_COUNT as nat, |i: int| builtin_name(i))
}

/// The string at position `i` among those that every interner knows from
/// the start.
fn builtin(i: usize) -> (r: &'static str)
    ensures
        r@ == builtin_name(i as int),
{
    if i == 0 {
        ""
    } else if i == 1 {
        "this"
    } else if i == 2 {
        "<anonymous function>"
    } else if i == 3 {
        "isset"
    } else if i == 4 {
        "unset"
    } else if i == 5 {
        "HH\\MemberOf"
    } else if i == 6 {
        "echo"
    } else if i == 7 {
        "__construct"
    } else if i == 8 {
        "<data attribute>"
    } else if i == 9 {
        "<aria attribute>"
    } else if i == 10 {
        "HH\\AnyArray"
    } else if i == 11 {
        "HH\\KeyedContainer"
    } else if i == 12 {
        "HH\\Container"
    } else if i == 13 {
        "__PHP_Incomplete_Class"
    } else if i == 14 {
        "XHPChild"
    } else if i == 15 {
        "HH\\Awaitable"
    } else if i == 16 {
        "HH\\BuiltinEnum"
    } else if i == 17 {
        "HH\\BuiltinEnumClass"
    } else if i == 18 {
        "static"
    } else if i == 19 {
        "self"
    } else if i == 20 {
        "HH\\FormatString"
    } else if i == 21 {
        "HH\\EnumClass\\Label"
    } else if i == 22 {
        "HH\\Traversable"
    } else if i == 23 {
        "HH\\KeyedTraversable"
    } else if i == 24 {
        "HH\\Lib\\Regex\\Pattern"
    } else if i == 25 {
        "HH\\Iterator"
    } else if i == 26 {
        "HH\\KeyedIterator"
    } else if i == 27 {
        "HH\\AsyncIterator"
    } else if i == 28 {
        "HH\\AsyncKeyedIterator"
    } else if i == 29 {
        "HH\\Shapes"
    } else if i == 30 {
        "stdClass"
    } else if i == 31 {
        "SimpleXMLElement"
    } else if i == 32 {
        "HH\\Asio\\join"
    } else if i == 33 {
        "include"
    } else if i == 34 {
        "HH\\TypeStructure"
    } else if i == 35 {
        "HH\\invariant"
    } else if i == 36 {
        "coerce"
    } else if i == 37 {
        "assert"
    } else if i == 38 {
        "assertAll"
    } else if i == 39 {
        "keyExists"
    } else if i == 40 {
        "removeKey"
    } else {
        "HH\\Lib\\Math\\INT32_MAX"
    }
}

/// An interner: strings and their handles.
#[derive(Debug)]
pub struct Interner {
    map: IndexSet<String, BuildHasherDefault<FxHasher>>,
}

impl Default for Interner {
    /// An interner that knows the built-in strings, each once, in their
    /// order.
    fn default() -> (r: Self)
        ensures
            r.wf(),
            r.strings() == distinct(builtin_names()),
    {
        let mut interner = Interner { map: set_new() };
        let mut i: usize = 0;
        assert(builtin_names().take(0) =~= Seq::<Text>::empty());
        while i < BUILTIN_COUNT
            invariant
                i <= BUILTIN_COUNT,
                interner.wf(),
                interner.strings().len() <= i,
                interner.strings() == distinct(builtin_names().take(i as int)),
            decreases BUILTIN_COUNT - i,
        {
            proof {
                let next = builtin_names().take(i as int + 1);
                assert(next.drop_last() =~= builtin_names().take(i as int));
                assert(next.last() == builtin_name(i as int));
                lemma_with_item(interner.strings(), builtin_name(i as int));
            }
            interner.intern(String::from_str(builtin(i)));
            i += 1;
        }
        assert(builtin_names().take(i as int) =~= builtin_names());
        interner
    }
}

impl Interner {
    /// The strings in the order of their handles.
    pub closed spec fn strings(&self) -> Seq<Text> {
        interned(self.map)
    }

    /// The representation invariant: no string has two handles, and every
    /// handle fits its type.
    pub open spec fn wf(&self) -> bool {
        self.strings().no_duplicates() && self.strings().len() <= u32::MAX
    }

    /// The handle of `path`; none if `path` has none yet.
    pub fn get(&self, path: &str) -> (r: Option<StrId>)
        requires
            self.wf(),
        ensures
            match r {
                Some(id) => id.0 < self.strings().len() && self.strings()[id.0 as int] == path@,
                None => !self.strings().contains(path@),
            },
    {
        match set_get_index_of(&self.map, path) {
            Some(i) => Some(StrId(i as u32)),
            None => None,
        }
    }

    /// The handle of `path`, which gets the next free handle if it has
    /// none yet.
    pub fn intern(&mut self, path: String) -> (r: StrId)
        requires
            old(self).wf(),
            old(self).strings().contains(path@) || old(self).strings().len() < u32::MAX,
        ensures
            final(self).wf(),
            final(self).strings() == with_item(old(self).strings(), path@),
            r.0 < final(self).strings().len(),
            final(self).strings()[r.0 as int] == path@,
    {
        proof {
            lemma_with_item(self.strings(), path@);
        }
        let (id, _added) = set_insert_full(&mut self.map, path);
        StrId(id as u32)
    }

    /// The handle of `path`, which gets the next free handle if it has
    /// none yet; none, and no change, if no handle is free.
    pub fn try_intern(&mut self, path: String) -> (r: Option<StrId>)
        requires
            old(self).wf(),
        ensures
            final(self).wf(),
            match r {
                Some(id) => final(self).strings() == with_item(old(self).strings(), path@)
                    && id.0 < final(self).strings().len() && final(self).strings()[id.0 as int]
                    == path@,
                None => final(self).strings() == old(self).strings() && !old(
                    self,
                ).strings().contains(path@) && old(self).strings().len() == u32::MAX,
            },
    {
        match self.get(path.as_str()) {
            Some(id) => {
                proof {
                    assert(self.strings().contains(path@));
                }
                Some(id)
            },
            None => {
                if self.len() < u32::MAX as usize {
                    Some(self.intern(path))
                } else {
                    None
                }
            },
        }
    }

    /// The number of strings that have a handle.
    pub fn len(&self) -> (n: usize)
        ensures
            n == self.strings().len(),
    {
        set_len(&self.map)
    }

    /// The string that the handle `id` stands for.
    pub fn lookup(&self, id: &StrId) -> (r: &str)
        requires
            self.wf(),
            id.0 < self.strings().len(),
        ensures
            r@ == self.strings()[id.0 as int],
    {
        set_get_index(&self.map, id.0 as usize).unwrap().as_str()
    }

    /// The string that the handle `id` stands for; none if it stands for
    /// none.
    pub fn try_lookup(&self, id: &StrId) -> (r: Option<&str>)
        requires
            self.wf(),
        ensures
            match r {
                Some(s) => id.0 < self.strings().len() && s@ == self.strings()[id.0 as int],
                None => id.0 >= self.strings().len(),
            },
    {
        match set_get_index(&self.map, id.0 as usize) {
            Some(s) => Some(s.as_str()),
            None => None,
        }
    }

    /// The handle of every string, by the string.
    pub fn get_map(&self) -> (r: StrMap<StrId>)
        requires
            self.wf(),
        ensures
            r.wf(),
            forall|name: Text| has_key(r.entries(), name) == self.strings().contains(name),
            forall|i: int|
                0 <= i < self.strings().len() ==> value_of(
                    r.entries(),
                    #[trigger] self.strings()[i],
                ) == StrId(i as u32),
    {
        let mut r: StrMap<StrId> = StrMap::new();
        let mut i: usize = 0;
        loop
            invariant
                self.wf(),
                r.wf(),
                i <= self.strings().len(),
                forall|name: Text|
                    has_key(r.entries(), name) == self.strings().take(i as int).contains(name),
                forall|k: int|
                    0 <= k < i ==> value_of(r.entries(), #[trigger] self.strings()[k]) == StrId(
                        k as u32,
                    ),
            ensures
                i == self.strings().len(),
                r.wf(),
                forall|name: Text|
                    has_key(r.entries(), name) == self.strings().take(i as int).contains(name),
                forall|k: int|
                    0 <= k < i ==> value_of(r.entries(), #[trigger] self.strings()[k]) == StrId(
                        k as u32,
                    ),
            decreases self.strings().len() - i,
        {
            let name = match set_get_index(&self.map, i) {
                Some(name) => name,
                None => {
                    break ;
                },
            };
            proof {
                lemma_put(r.entries(), name@, StrId(i as u32));
                let before = self.strings().take(i as int);
                let after = self.strings().take(i as int + 1);
                assert(after =~= before.push(name@));
                assert forall|other: Text| after.contains(other) == (before.contains(other)
                    || other == name@) by {
                    if before.contains(other) {
                        let x = before.index_of(other);
                        assert(after[x] == other);
                    }
                    if after.contains(other) {
                        let x = after.index_of(other);
                        if x < before.len() {
                            assert(before[x] == other);
                        }
                    }
                    assert(after[i as int] == name@);
                }
            }
            let ghost before_entries = r.entries();
            r.insert(name.clone(), StrId(i as u32));
            proof {
                let before = self.strings().take(i as int);
                let after = self.strings().take(i as int + 1);
                assert forall|other: Text| has_key(r.entries(), other) == after.contains(
                    other,
                ) by {
                    if other != name@ {
                        assert(has_key(r.entries(), other) == has_key(before_entries, other));
                    }
                }
                assert forall|k: int| 0 <= k < i + 1 implies value_of(
                    r.entries(),
                    #[trigger] self.strings()[k],
                ) == StrId(k as u32) by {
                    if k < i {
                        assert(self.strings()[k] != self.strings()[i as int]);
                        assert(before[k] == self.strings()[k]);
                        assert(before.contains(self.strings()[k]));
                        assert(has_key(before_entries, self.strings()[k]));
                    }
                }
            }
            i += 1;
        }
        assert(self.strings().take(i as int) =~= self.strings());
        r
    }
}

} // verus!
