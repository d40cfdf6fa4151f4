//! Flat records: ordered lists of named optional values.

use crate::value::{Tree, Value};
use vstd::prelude::*;

verus! {

/// The name of a field.
pub type Name = String;

/// A field: its name, and its value where it has one.
pub type Pair = (Name, Option<Value>);

/// One flat output record: its fields in the order in which they were emitted.
pub type Record = Vec<Pair>;

/// What a `Pair` holds.
pub type Field = (Seq<char>, Option<Tree>);

/// What a `Record` holds.
pub type Row = Seq<Field>;

/// A copy of `pair`.
pub fn clone_pair(pair: &Pair) -> (copy: Pair)
    ensures
        copy.deep_view() == pair.deep_view(),
{
    let value = match &pair.1 {
        Some(v) => Some(v.clone()),
        None => None,
    };
    (pair.0.clone(), value)
}

/// A copy of `record`.
pub fn clone_record(record: &Record) -> (copy: Record)
    ensures
        copy.deep_view() == record.deep_view(),
{
    let mut copy: Record = Vec::new();
    let mut i: usize = 0;
    while i < record.len()
        invariant
            i <= record.len(),
            copy@.len() == i,
            forall|j: int| 0 <= j < i ==> copy@[j].deep_view() == record@[j].deep_view(),
        decreases record.len() - i,
    {
        copy.push(clone_pair(&record[i]));
        i = i + 1;
    }
    assert(copy.deep_view() =~= record.deep_view());
    copy
}

} // verus!
