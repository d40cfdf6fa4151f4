//! The extraction walk: a schema against a document.

use crate::merge::merge;
use crate::record::{Pair, Record};
use crate::schema::Schema;
use crate::transform::lemma_transformed;
use crate::value::Value;
use vstd::prelude::*;

verus! {

impl<F: Fn(Option<Value>) -> Option<Value>> Schema<F> {
    /// Extracts the records of the document `record` under a schema rooted at
    /// a `Sub` node. There are as many as `row_count` says. Where every `Sub`
    /// node of the schema has a child and the document holds no array, there
    /// is one, and it holds one field for each `Key` node of the schema.
    pub fn extract(&self, record: &Value) -> (rows: Vec<Record>)
        requires
            self is Sub,
            self.well_formed(),
        ensures
            rows.deep_view() == self.plan().rows(Some(record@), Seq::empty()),
            rows.len() == self.plan().row_count(Some(record@)),
            self.plan().no_empty_sub() && record@.holds_no_array() ==> rows.len() == 1
                && rows[0].deep_view().to_multiset() == self.plan().leaves(
                Some(record@),
                Seq::empty(),
            ).to_multiset(),
    {
        let rows = self._extract_sub(Some(record), "");
        proof {
            reveal_strlit("");
            assert(""@ =~= Seq::<char>::empty());
            self.plan().lemma_row_count(Some(record@), Seq::empty());
            if self.plan().no_empty_sub() && record@.holds_no_array() {
                self.plan().lemma_one_row_of_flat_document(record@);
            }
        }
        rows
    }

    /// Extracts the rows of a `Sub` node in the context `record` below `prefix`.
    pub fn _extract_sub(&self, record: Option<&Value>, prefix: &str) -> (rows: Vec<Record>)
        requires
            self is Sub,
            self.well_formed(),
        ensures
            rows.deep_view() == self.plan().rows(record.deep_view(), prefix@),
        decreases self, 0nat,
    {
        match self {
            Schema::Sub(name, children) => {
                let path = Self::prefix(prefix, name.as_str());
                let ghost ctx = record.deep_view();
                let mut subdocs: Vec<Vec<Record>> = Vec::new();
                let mut fields: Vec<Pair> = Vec::new();
                let mut i: usize = 0;
                assert(subdocs.deep_view() =~= self.plan().nested(0, ctx, path@));
                assert(fields.deep_view() =~= self.plan().fields(0, ctx, path@));
                while i < children.len()
                    invariant
                        i <= children.len(),
                        self is Sub,
                        self->Sub_1 == *children,
                        self.well_formed(),
                        ctx == record.deep_view(),
                        subdocs.deep_view() == self.plan().nested(i as nat, ctx, path@),
                        fields.deep_view() == self.plan().fields(i as nat, ctx, path@),
                    decreases children.len() - i,
                {
                    let child = &children[i];
                    assert(child.well_formed());
                    match child {
                        Schema::Sub(_, _) => {
                            let group = child.extract_group(record, path.as_str());
                            let ghost before = subdocs.deep_view();
                            subdocs.push(group);
                            assert(subdocs.deep_view() =~= before.push(group.deep_view()));
                        },
                        Schema::Key(_, _, _) => {
                            let pair = child._extract_key(record, path.as_str());
                            let ghost before = fields.deep_view();
                            fields.push(pair);
                            assert(fields.deep_view() =~= before.push(pair.deep_view()));
                        },
                    }
                    i = i + 1;
                }
                if fields.len() > 0 {
                    let ghost before = subdocs.deep_view();
                    let ghost row = fields.deep_view();
                    let mut own: Vec<Record> = Vec::new();
                    own.push(fields);
                    assert(own.deep_view() =~= seq![row]);
                    subdocs.push(own);
                    assert(subdocs.deep_view() =~= before.push(seq![row]));
                }
                merge(subdocs)
            },
            Schema::Key(_, _, _) => vstd::pervasive::unreached(),
        }
    }

    /// Extracts the group that a `Sub` node adds to those of its parent, whose
    /// context is `record`.
    fn extract_group(&self, record: Option<&Value>, path: &str) -> (rows: Vec<Record>)
        requires
            self is Sub,
            self.well_formed(),
        ensures
            rows.deep_view() == self.plan().group(record.deep_view(), path@),
        decreases self, 1nat,
    {
        let found = match record {
            Some(v) => match self {
                Schema::Sub(key, _) => v.get(key),
                Schema::Key(_, _, _) => None,
            },
            None => None,
        };
        match found {
            Some(Value::Object(_)) => self._extract_sub(found, path),
            Some(Value::Array(items)) => {
                let mut rows: Vec<Record> = Vec::new();
                let mut j: usize = 0;
                let ghost trees = found.deep_view()->Some_0->Array_0;
                assert(rows.deep_view() =~= self.plan().rows_of_each(trees, 0, path@));
                while j < items.len()
                    invariant
                        j <= items.len(),
                        self is Sub,
                        self.well_formed(),
                        trees.len() == items@.len(),
                        forall|k: int| 0 <= k < items@.len() ==> trees[k] == items@[k]@,
                        rows.deep_view() == self.plan().rows_of_each(trees, j as nat, path@),
                    decreases items.len() - j,
                {
                    let mut more = self._extract_sub(Some(&items[j]), path);
                    let ghost before = rows.deep_view();
                    let ghost added = more.deep_view();
                    rows.append(&mut more);
                    assert(rows.deep_view() =~= before + added);
                    j = j + 1;
                }
                rows
            },
            _ => self._extract_sub(None, path),
        }
    }

    /// Evaluates a `Key` node against `record`.
    pub fn _extract_key(&self, record: Option<&Value>, prefix: &str) -> (pair: Pair)
        requires
            self is Key,
            self.well_formed(),
        ensures
            pair.deep_view() == self.plan().leaf(record.deep_view(), prefix@),
    {
        match self {
            Schema::Key(key, name, transform) => {
                let k = match name {
                    Some(name) => name.clone(),
                    None => Self::prefix(prefix, key.as_str()),
                };
                let value = match record {
                    Some(v) => match v.get(key) {
                        Some(found) => Some(found.clone()),
                        None => None,
                    },
                    None => None,
                };
                match transform {
                    Some(f) => {
                        let ghost raw = value;
                        let out = f(value);
                        proof {
                            lemma_transformed(*f, raw, out);
                        }
                        (k, out)
                    },
                    None => (k, value),
                }
            },
            Schema::Sub(_, _) => vstd::pervasive::unreached(),
        }
    }
}

} // verus!
