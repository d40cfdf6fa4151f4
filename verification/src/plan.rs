//! What a schema means: the rows that it yields for a document.

use crate::merge::merged;
use crate::record::{Field, Row};
use crate::schema::joined;
use crate::value::Tree;
use vstd::prelude::*;

verus! {

/// What a schema holds: keys and names as sequences of characters, and each
/// transform as the function that it computes.
pub ghost enum Plan {
    Sub(Seq<char>, Seq<Plan>),
    Key(Seq<char>, Option<Seq<char>>, Option<spec_fn(Option<Tree>) -> Option<Tree>>),
}

/// The value under `key` in the context `ctx`, where `ctx` is an object that has it.
pub open spec fn lookup(ctx: Option<Tree>, key: Seq<char>) -> Option<Tree> {
    match ctx {
        Some(tree) => tree.field(key),
        None => None,
    }
}

impl Plan {
    /// The key that this node selects in its context.
    pub open spec fn source_key(self) -> Seq<char> {
        match self {
            Plan::Sub(key, _) => key,
            Plan::Key(key, _, _) => key,
        }
    }

    /// The field that a `Key` node emits in the context `ctx` below `prefix`.
    /// Its name is the node's output name where it has one, else the path of
    /// its key below `prefix`. Its value is what the context holds under the
    /// key, passed through the node's transform where it has one.
    pub open spec fn leaf(self, ctx: Option<Tree>, prefix: Seq<char>) -> Field {
        match self {
            Plan::Key(key, name, transform) => (
                match name {
                    Some(name) => name,
                    None => joined(prefix, key),
                },
                match transform {
                    Some(f) => f(lookup(ctx, key)),
                    None => lookup(ctx, key),
                },
            ),
            Plan::Sub(key, _) => (joined(prefix, key), None),
        }
    }

    /// The rows that a `Sub` node yields in the context `ctx` below `prefix`:
    /// the groups of its `Sub` children in their order, then one group of a
    /// single row that holds the fields of its `Key` children where it has
    /// any, all merged.
    pub open spec fn rows(self, ctx: Option<Tree>, prefix: Seq<char>) -> Seq<Row>
        decreases self, 1nat, 0nat,
    {
        match self {
            Plan::Sub(key, children) => {
                let path = joined(prefix, key);
                let nested = self.nested(children.len(), ctx, path);
                let fields = self.fields(children.len(), ctx, path);
                merged(
                    if fields.len() > 0 {
                        nested.push(seq![fields])
                    } else {
                        nested
                    },
                )
            },
            Plan::Key(_, _, _) => Seq::empty(),
        }
    }

    /// The groups of the `Sub` nodes among the first `n` children of a `Sub`
    /// node, in their order, in the context `ctx` of that node and below `path`.
    pub open spec fn nested(self, n: nat, ctx: Option<Tree>, path: Seq<char>) -> Seq<Seq<Row>>
        decreases self, 0nat, n,
    {
        match self {
            Plan::Sub(_, children) => if 0 < n <= children.len() {
                let child = children[n - 1];
                let before = self.nested((n - 1) as nat, ctx, path);
                if child is Sub {
                    before.push(child.group(ctx, path))
                } else {
                    before
                }
            } else {
                Seq::empty()
            },
            Plan::Key(_, _, _) => Seq::empty(),
        }
    }

    /// The fields of the `Key` nodes among the first `n` children of a `Sub`
    /// node, in their order.
    pub open spec fn fields(self, n: nat, ctx: Option<Tree>, path: Seq<char>) -> Row
        decreases n,
    {
        match self {
            Plan::Sub(_, children) => if 0 < n <= children.len() {
                let child = children[n - 1];
                let before = self.fields((n - 1) as nat, ctx, path);
                if child is Key {
                    before.push(child.leaf(ctx, path))
                } else {
                    before
                }
            } else {
                Seq::empty()
            },
            Plan::Key(_, _, _) => Seq::empty(),
        }
    }

    /// The group that a `Sub` node adds to those of its parent, whose context
    /// is `ctx`. Where the parent's context holds an object under the node's
    /// key, the group is the node's rows in that object. Where it holds an
    /// array, the group is the node's rows in each element, one element after
    /// the other. Else it is the node's rows without a context.
    pub open spec fn group(self, ctx: Option<Tree>, path: Seq<char>) -> Seq<Row>
        decreases self, 3nat, 0nat,
    {
        match lookup(ctx, self.source_key()) {
            Some(Tree::Object(entries)) => self.rows(Some(Tree::Object(entries)), path),
            Some(Tree::Array(items)) => self.rows_of_each(items, items.len(), path),
            _ => self.rows(None, path),
        }
    }

    /// The rows of a `Sub` node in each of the first `n` of `items`, one
    /// element after the other.
    pub open spec fn rows_of_each(self, items: Seq<Tree>, n: nat, path: Seq<char>) -> Seq<Row>
        decreases self, 2nat, n,
    {
        if 0 < n <= items.len() {
            self.rows_of_each(items, (n - 1) as nat, path) + self.rows(Some(items[n - 1]), path)
        } else {
            Seq::empty()
        }
    }
}

} // verus!
