//! The document model: a tree of scalars, arrays and objects.

use vstd::prelude::*;

verus! {

/// A number of a document: an integer that is not negative, a negative
/// integer, or a double, held by its IEEE 754 bit pattern.
#[derive(Clone, Copy, Debug, PartialEq, Eq)]
pub enum Number {
    PosInt(u64),
    NegInt(i64),
    Float(u64),
}

/// A document, or a part of one. An object holds its entries in a list; a key
/// is meant to occur once in it, and where it occurs again the first entry is
/// the one that counts.
#[derive(Debug, PartialEq)]
pub enum Value {
    Null,
    Bool(bool),
    Number(Number),
    String(String),
    Array(Vec<Value>),
    Object(Vec<(String, Value)>),
}

/// What a `Value` holds: strings as sequences of characters, arrays as
/// sequences, objects as the sequences of their entries.
pub ghost enum Tree {
    Null,
    Bool(bool),
    Number(Number),
    String(Seq<char>),
    Array(Seq<Tree>),
    Object(Seq<(Seq<char>, Tree)>),
}

impl Value {
    /// The tree that this value holds.
    pub open spec fn tree(&self) -> Tree
        decreases self,
    {
        match self {
            Value::Null => Tree::Null,
            Value::Bool(b) => Tree::Bool(*b),
            Value::Number(n) => Tree::Number(*n),
            Value::String(s) => Tree::String(s@),
            Value::Array(items) => Tree::Array(
                Seq::new(
                    items@.len(),
                    |i: int|
                        if 0 <= i < items@.len() {
                            items@[i].tree()
                        } else {
                            Tree::Null
                        },
                ),
            ),
            Value::Object(entries) => Tree::Object(
                Seq::new(
                    entries@.len(),
                    |i: int|
                        if 0 <= i < entries@.len() {
                            (entries@[i].0@, entries@[i].1.tree())
                        } else {
                            (Seq::empty(), Tree::Null)
                        },
                ),
            ),
        }
    }
}

impl View for Value {
    type V = Tree;

    open spec fn view(&self) -> Tree {
        self.tree()
    }
}

impl DeepView for Value {
    type V = Tree;

    open spec fn deep_view(&self) -> Tree {
        self.tree()
    }
}

/// The value of the first entry of `entries` whose key is `key`.
pub open spec fn first_entry(entries: Seq<(Seq<char>, Tree)>, key: Seq<char>) -> Option<Tree>
    decreases entries.len(),
{
    if entries.len() == 0 {
        None
    } else if entries[0].0 == key {
        Some(entries[0].1)
    } else {
        first_entry(entries.drop_first(), key)
    }
}

impl Tree {
    /// The value that an object holds under `key`: that of its first entry with
    /// this key. Anything but an object, and an object without the key, has none.
    pub open spec fn field(self, key: Seq<char>) -> Option<Tree> {
        match self {
            Tree::Object(entries) => first_entry(entries, key),
            _ => None,
        }
    }

    /// No object in this value has a key twice.
    pub open spec fn keys_unique(self) -> bool
        decreases self,
    {
        match self {
            Tree::Array(items) => forall|i: int|
                0 <= i < items.len() ==> (#[trigger] items[i]).keys_unique(),
            Tree::Object(entries) => {
                &&& forall|i: int, j: int|
                    0 <= i < j < entries.len() ==> (#[trigger] entries[i]).0 != (
                    #[trigger] entries[j]).0
                &&& forall|i: int|
                    0 <= i < entries.len() ==> (#[trigger] entries[i]).1.keys_unique()
            },
            _ => true,
        }
    }

    /// Neither this value nor anything inside it is an array.
    pub open spec fn holds_no_array(self) -> bool
        decreases self,
    {
        match self {
            Tree::Array(_) => false,
            Tree::Object(entries) => forall|i: int|
                0 <= i < entries.len() ==> (#[trigger] entries[i]).1.holds_no_array(),
            _ => true,
        }
    }
}

/// Where no key occurs twice an object is a mapping: under the key of each of
/// its entries it holds the value of that entry.
pub proof fn lemma_field_of_entry(object: Tree, i: int)
    requires
        object is Object,
        object.keys_unique(),
        0 <= i < object->Object_0.len(),
    ensures
        object.field(object->Object_0[i].0) == Some(object->Object_0[i].1),
{
    lemma_first_entry_of_unique(object->Object_0, i);
}

proof fn lemma_first_entry_of_unique(entries: Seq<(Seq<char>, Tree)>, i: int)
    requires
        0 <= i < entries.len(),
        forall|a: int, b: int|
            0 <= a < b < entries.len() ==> (#[trigger] entries[a]).0 != (#[trigger] entries[b]).0,
    ensures
        first_entry(entries, entries[i].0) == Some(entries[i].1),
    decreases i,
{
    if i > 0 {
        let rest = entries.drop_first();
        assert(entries[0].0 != entries[i].0);
        assert forall|a: int, b: int| 0 <= a < b < rest.len() implies (#[trigger] rest[a]).0 != (
        #[trigger] rest[b]).0 by {
            assert(rest[a] == entries[a + 1] && rest[b] == entries[b + 1]);
        }
        assert(rest[i - 1] == entries[i]);
        lemma_first_entry_of_unique(rest, i - 1);
    }
}

/// What is found in an object that holds no array holds none.
pub proof fn lemma_entry_holds_no_array(entries: Seq<(Seq<char>, Tree)>, key: Seq<char>)
    requires
        forall|i: int| 0 <= i < entries.len() ==> (#[trigger] entries[i]).1.holds_no_array(),
    ensures
        first_entry(entries, key) matches Some(found) ==> found.holds_no_array(),
    decreases entries.len(),
{
    if entries.len() > 0 && entries[0].0 != key {
        let rest = entries.drop_first();
        assert forall|i: int| 0 <= i < rest.len() implies (#[trigger] rest[i]).1.holds_no_array() by {
            assert(rest[i] == entries[i + 1]);
        }
        lemma_entry_holds_no_array(rest, key);
    }
}

impl Value {
    /// Looks `key` up in an object.
    pub fn get(&self, key: &String) -> (found: Option<&Value>)
        ensures
            found.deep_view() == self@.field(key@),
    {
        match self {
            Value::Object(entries) => {
                let ghost all = self@->Object_0;
                assert(all.skip(0) == all);
                let mut i: usize = 0;
                while i < entries.len()
                    invariant
                        i <= entries.len(),
                        self@ == Tree::Object(all),
                        all.len() == entries@.len(),
                        forall|j: int|
                            0 <= j < entries@.len() ==> all[j] == (entries@[j].0@, entries@[j].1@),
                        first_entry(all, key@) == first_entry(all.skip(i as int), key@),
                    decreases entries.len() - i,
                {
                    assert(all.skip(i as int)[0] == all[i as int]);
                    assert(all.skip(i as int).drop_first() == all.skip(i + 1));
                    if entries[i].0 == *key {
                        return Some(&entries[i].1);
                    }
                    i = i + 1;
                }
                None
            },
            _ => None,
        }
    }
}

impl Clone for Value {
    fn clone(&self) -> (copy: Value)
        ensures
            copy@ == self@,
        decreases self,
    {
        match self {
            Value::Null => Value::Null,
            Value::Bool(b) => Value::Bool(*b),
            Value::Number(n) => Value::Number(*n),
            Value::String(s) => Value::String(s.clone()),
            Value::Array(items) => {
                let mut copies: Vec<Value> = Vec::new();
                let mut i: usize = 0;
                while i < items.len()
                    invariant
                        i <= items.len(),
                        self is Array,
                        self->Array_0 == *items,
                        copies@.len() == i,
                        forall|j: int| 0 <= j < i ==> copies@[j]@ == items@[j]@,
                    decreases items.len() - i,
                {
                    copies.push(items[i].clone());
                    i = i + 1;
                }
                let copy = Value::Array(copies);
                assert(copy@->Array_0 =~= self@->Array_0);
                copy
            },
            Value::Object(entries) => {
                let mut copies: Vec<(String, Value)> = Vec::new();
                let mut i: usize = 0;
                while i < entries.len()
                    invariant
                        i <= entries.len(),
                        self is Object,
                        self->Object_0 == *entries,
                        copies@.len() == i,
                        forall|j: int|
                            0 <= j < i ==> copies@[j].0@ == entries@[j].0@ && copies@[j].1@
                                == entries@[j].1@,
                    decreases entries.len() - i,
                {
                    copies.push((entries[i].0.clone(), entries[i].1.clone()));
                    i = i + 1;
                }
                let copy = Value::Object(copies);
                assert(copy@->Object_0 =~= self@->Object_0);
                copy
            },
        }
    }
}

} // verus!
