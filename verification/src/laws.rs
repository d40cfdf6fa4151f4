//! What holds of every extraction: how many rows come out, and what the one
//! row of a document without arrays holds.

use crate::merge::{first_rows, lemma_merged_len, lemma_merged_single_rows, product_of_lens};
use crate::record::Row;
use crate::plan::{lookup, Plan};
use crate::schema::joined;
use crate::value::{lemma_entry_holds_no_array, Tree};
use vstd::prelude::*;

verus! {

impl Plan {
    /// The number of rows of a `Sub` node in the context `ctx`: none for a
    /// node without children, else the product of the numbers of rows of the
    /// groups of its `Sub` children.
    pub open spec fn row_count(self, ctx: Option<Tree>) -> nat
        decreases self, 1nat, 0nat,
    {
        match self {
            Plan::Sub(_, children) => if children.len() == 0 {
                0
            } else {
                self.nested_count(children.len(), ctx)
            },
            Plan::Key(_, _, _) => 0,
        }
    }

    /// The product of the numbers of rows of the groups of the `Sub` nodes
    /// among the first `n` children of a `Sub` node.
    pub open spec fn nested_count(self, n: nat, ctx: Option<Tree>) -> nat
        decreases self, 0nat, n,
    {
        match self {
            Plan::Sub(_, children) => if 0 < n <= children.len() {
                let child = children[n - 1];
                let before = self.nested_count((n - 1) as nat, ctx);
                if child is Sub {
                    before * child.group_count(ctx)
                } else {
                    before
                }
            } else {
                1
            },
            Plan::Key(_, _, _) => 1,
        }
    }

    /// The number of rows of the group of a `Sub` node, whose parent has the
    /// context `ctx`: for an array under the node's key, the sum of the
    /// numbers of rows of the node in its elements.
    pub open spec fn group_count(self, ctx: Option<Tree>) -> nat
        decreases self, 3nat, 0nat,
    {
        match lookup(ctx, self.source_key()) {
            Some(Tree::Object(entries)) => self.row_count(Some(Tree::Object(entries))),
            Some(Tree::Array(items)) => self.count_of_each(items, items.len()),
            _ => self.row_count(None),
        }
    }

    /// The sum of the numbers of rows of a `Sub` node in the first `n` of `items`.
    pub open spec fn count_of_each(self, items: Seq<Tree>, n: nat) -> nat
        decreases self, 2nat, n,
    {
        if 0 < n <= items.len() {
            self.count_of_each(items, (n - 1) as nat) + self.row_count(Some(items[n - 1]))
        } else {
            0
        }
    }

    /// A `Sub` node yields as many rows as `row_count` says: the product,
    /// over its `Sub` children, of what each yields in the object under its
    /// key, or of the sum of what it yields in the elements of the array
    /// there. Where a child yields one row in each element, that sum is the
    /// length of the array (`lemma_group_count_of_array`).
    pub proof fn lemma_row_count(self, ctx: Option<Tree>, prefix: Seq<char>)
        ensures
            self.rows(ctx, prefix).len() == self.row_count(ctx),
        decreases self, 1nat, 0nat,
    {
        match self {
            Plan::Sub(key, children) => {
                let path = joined(prefix, key);
                let n = children.len();
                let nested = self.nested(n, ctx, path);
                let fields = self.fields(n, ctx, path);
                self.lemma_nested_count(n, ctx, path);
                self.lemma_children_split(n, ctx, path);
                if fields.len() > 0 {
                    let groups = nested.push(seq![fields]);
                    assert(groups.drop_last() =~= nested);
                    assert(product_of_lens(groups) == product_of_lens(nested) * 1);
                    lemma_merged_len(groups);
                } else {
                    lemma_merged_len(nested);
                }
            },
            Plan::Key(_, _, _) => {},
        }
    }

    /// Each of the first `n` children of a `Sub` node adds either a group or a field.
    proof fn lemma_children_split(self, n: nat, ctx: Option<Tree>, path: Seq<char>)
        requires
            self is Sub,
            n <= self->Sub_1.len(),
        ensures
            self.nested(n, ctx, path).len() + self.fields(n, ctx, path).len() == n,
        decreases n,
    {
        if n > 0 {
            self.lemma_children_split((n - 1) as nat, ctx, path);
        }
    }

    proof fn lemma_nested_count(self, n: nat, ctx: Option<Tree>, path: Seq<char>)
        requires
            self is Sub,
            n <= self->Sub_1.len(),
        ensures
            product_of_lens(self.nested(n, ctx, path)) == self.nested_count(n, ctx),
        decreases self, 0nat, n,
    {
        if n > 0 {
            let child = self->Sub_1[n - 1];
            let before = self.nested((n - 1) as nat, ctx, path);
            self.lemma_nested_count((n - 1) as nat, ctx, path);
            if child is Sub {
                child.lemma_group_count(ctx, path);
                assert(before.push(child.group(ctx, path)).drop_last() =~= before);
            }
        }
    }

    proof fn lemma_group_count(self, ctx: Option<Tree>, path: Seq<char>)
        ensures
            self.group(ctx, path).len() == self.group_count(ctx),
        decreases self, 3nat, 0nat,
    {
        match lookup(ctx, self.source_key()) {
            Some(Tree::Object(entries)) => self.lemma_row_count(Some(Tree::Object(entries)), path),
            Some(Tree::Array(items)) => self.lemma_count_of_each(items, items.len(), path),
            _ => self.lemma_row_count(None, path),
        }
    }

    proof fn lemma_count_of_each(self, items: Seq<Tree>, n: nat, path: Seq<char>)
        ensures
            self.rows_of_each(items, n, path).len() == self.count_of_each(items, n),
        decreases self, 2nat, n,
    {
        if 0 < n <= items.len() {
            self.lemma_count_of_each(items, (n - 1) as nat, path);
            self.lemma_row_count(Some(items[n - 1]), path);
        }
    }

    /// A `Sub` node whose children are `Key` nodes, one at least, yields one
    /// row in every context.
    pub proof fn lemma_row_count_of_keys(self, ctx: Option<Tree>)
        requires
            self is Sub,
            self->Sub_1.len() > 0,
            forall|i: int| 0 <= i < self->Sub_1.len() ==> (#[trigger] self->Sub_1[i]) is Key,
        ensures
            self.row_count(ctx) == 1,
    {
        self.lemma_nested_count_of_keys(self->Sub_1.len(), ctx);
    }

    proof fn lemma_nested_count_of_keys(self, n: nat, ctx: Option<Tree>)
        requires
            self is Sub,
            n <= self->Sub_1.len(),
            forall|i: int| 0 <= i < self->Sub_1.len() ==> (#[trigger] self->Sub_1[i]) is Key,
        ensures
            self.nested_count(n, ctx) == 1,
        decreases n,
    {
        if n > 0 {
            self.lemma_nested_count_of_keys((n - 1) as nat, ctx);
        }
    }

    /// Where a `Sub` node finds an array under its key and yields one row in
    /// each element, its group has as many rows as the array has elements.
    pub proof fn lemma_group_count_of_array(self, ctx: Option<Tree>, items: Seq<Tree>)
        requires
            lookup(ctx, self.source_key()) == Some(Tree::Array(items)),
            forall|j: int| 0 <= j < items.len() ==> self.row_count(Some(#[trigger] items[j])) == 1,
        ensures
            self.group_count(ctx) == items.len(),
    {
        self.lemma_count_of_each_one(items, items.len());
    }

    proof fn lemma_count_of_each_one(self, items: Seq<Tree>, n: nat)
        requires
            n <= items.len(),
            forall|j: int| 0 <= j < items.len() ==> self.row_count(Some(#[trigger] items[j])) == 1,
        ensures
            self.count_of_each(items, n) == n,
        decreases n,
    {
        if n > 0 {
            self.lemma_count_of_each_one(items, (n - 1) as nat);
        }
    }

    /// Every `Sub` node of the schema has a child.
    pub open spec fn no_empty_sub(self) -> bool
        decreases self,
    {
        match self {
            Plan::Sub(_, children) => children.len() > 0 && forall|i: int|
                0 <= i < children.len() ==> (#[trigger] children[i]).no_empty_sub(),
            Plan::Key(_, _, _) => true,
        }
    }

    /// The context that a child of a node with the context `ctx` works in: for
    /// a `Key` node that of its parent, for a `Sub` node the object under its
    /// key, or none where no object is there.
    pub open spec fn context_in(self, ctx: Option<Tree>) -> Option<Tree> {
        match self {
            Plan::Sub(key, _) => match lookup(ctx, key) {
                Some(Tree::Object(entries)) => Some(Tree::Object(entries)),
                _ => None,
            },
            Plan::Key(_, _, _) => ctx,
        }
    }

    /// No `Sub` node below this one, whose context is `ctx`, finds an array
    /// under its key.
    pub open spec fn finds_no_array(self, ctx: Option<Tree>) -> bool
        decreases self,
    {
        match self {
            Plan::Sub(_, children) => forall|i: int|
                0 <= i < children.len() && (#[trigger] children[i]) is Sub ==> !(lookup(
                    ctx,
                    children[i].source_key(),
                ) matches Some(Tree::Array(_))) && children[i].finds_no_array(
                    children[i].context_in(ctx),
                ),
            Plan::Key(_, _, _) => true,
        }
    }

    /// In a document that holds no array, no node finds one.
    pub proof fn lemma_finds_no_array(self, ctx: Option<Tree>)
        requires
            ctx matches Some(tree) ==> tree.holds_no_array(),
        ensures
            self.finds_no_array(ctx),
        decreases self,
    {
        match self {
            Plan::Sub(_, children) => {
                assert forall|i: int|
                    0 <= i < children.len() && (#[trigger] children[i]) is Sub implies !(lookup(
                    ctx,
                    children[i].source_key(),
                ) matches Some(Tree::Array(_))) && children[i].finds_no_array(
                    children[i].context_in(ctx),
                ) by {
                    let child = children[i];
                    if let Some(Tree::Object(entries)) = ctx {
                        lemma_entry_holds_no_array(entries, child.source_key());
                    }
                    child.lemma_finds_no_array(child.context_in(ctx));
                }
            },
            Plan::Key(_, _, _) => {},
        }
    }

    /// The fields of the `Key` nodes at and below this node, in the order of
    /// the schema, each in the context of its parent, where arrays play no part.
    pub open spec fn leaves(self, ctx: Option<Tree>, prefix: Seq<char>) -> Row
        decreases self, 1nat, 0nat,
    {
        match self {
            Plan::Sub(key, children) => self.leaves_of_first(
                children.len(),
                ctx,
                joined(prefix, key),
            ),
            Plan::Key(_, _, _) => seq![self.leaf(ctx, prefix)],
        }
    }

    /// The fields of the `Key` nodes at and below the first `n` children of a
    /// `Sub` node, whose context is `ctx` and whose path is `path`.
    pub open spec fn leaves_of_first(self, n: nat, ctx: Option<Tree>, path: Seq<char>) -> Row
        decreases self, 0nat, n,
    {
        match self {
            Plan::Sub(_, children) => if 0 < n <= children.len() {
                let child = children[n - 1];
                self.leaves_of_first((n - 1) as nat, ctx, path) + child.leaves(
                    child.context_in(ctx),
                    path,
                )
            } else {
                Seq::empty()
            },
            Plan::Key(_, _, _) => Seq::empty(),
        }
    }

    /// Where every `Sub` node has a child and none finds an array, a `Sub`
    /// node yields exactly one row, and the row holds one field for each `Key`
    /// node below it: the node's name with the node's value, after its
    /// transform, and no value where the document has none. The row holds
    /// each field as often as `leaves` does, so this needs no two names to
    /// differ; the order of the fields in the row is that of the merge.
    pub proof fn lemma_one_row_without_arrays(self, ctx: Option<Tree>, prefix: Seq<char>)
        requires
            self is Sub,
            self.no_empty_sub(),
            self.finds_no_array(ctx),
        ensures
            self.rows(ctx, prefix).len() == 1,
            self.rows(ctx, prefix)[0].len() == self.leaves(ctx, prefix).len(),
            self.rows(ctx, prefix)[0].to_multiset() == self.leaves(ctx, prefix).to_multiset(),
            forall|k: int|
                0 <= k < self.leaves(ctx, prefix).len() ==> self.rows(ctx, prefix)[0].contains(
                    #[trigger] self.leaves(ctx, prefix)[k],
                ),
        decreases self, 1nat, 0nat,
    {
        broadcast use vstd::seq_lib::lemma_multiset_commutative;

        let path = joined(prefix, self->Sub_0);
        let n = self->Sub_1.len();
        let nested = self.nested(n, ctx, path);
        let fields = self.fields(n, ctx, path);
        self.lemma_groups_without_arrays(n, ctx, path);
        self.lemma_children_split(n, ctx, path);
        if fields.len() > 0 {
            let groups = nested.push(seq![fields]);
            assert(groups.drop_last() =~= nested);
            assert(first_rows(groups) == first_rows(nested) + fields);
            lemma_merged_single_rows(groups);
        } else {
            assert(first_rows(nested) + fields =~= first_rows(nested));
            lemma_merged_single_rows(nested);
        }
        assert(self.rows(ctx, prefix)[0].to_multiset() =~= self.leaves(ctx, prefix).to_multiset());
        vstd::seq_lib::to_multiset_len(self.rows(ctx, prefix)[0]);
        vstd::seq_lib::to_multiset_len(self.leaves(ctx, prefix));
        assert forall|k: int| 0 <= k < self.leaves(ctx, prefix).len() implies self.rows(
            ctx,
            prefix,
        )[0].contains(#[trigger] self.leaves(ctx, prefix)[k]) by {
            let field = self.leaves(ctx, prefix)[k];
            assert(self.leaves(ctx, prefix).contains(field));
            vstd::seq_lib::to_multiset_contains(self.leaves(ctx, prefix), field);
            vstd::seq_lib::to_multiset_contains(self.rows(ctx, prefix)[0], field);
        }
    }

    /// A schema in which every `Sub` node has a child yields exactly one
    /// record for a document that holds no array, with one field for each
    /// `Key` node of the schema.
    pub proof fn lemma_one_row_of_flat_document(self, document: Tree)
        requires
            self is Sub,
            self.no_empty_sub(),
            document.holds_no_array(),
        ensures
            self.rows(Some(document), Seq::empty()).len() == 1,
            self.rows(Some(document), Seq::empty())[0].to_multiset() == self.leaves(
                Some(document),
                Seq::empty(),
            ).to_multiset(),
    {
        self.lemma_finds_no_array(Some(document));
        self.lemma_one_row_without_arrays(Some(document), Seq::empty());
    }

    proof fn lemma_groups_without_arrays(self, n: nat, ctx: Option<Tree>, path: Seq<char>)
        requires
            self is Sub,
            n <= self->Sub_1.len(),
            self.no_empty_sub(),
            self.finds_no_array(ctx),
        ensures
            forall|i: int|
                0 <= i < self.nested(n, ctx, path).len() ==> (#[trigger] self.nested(
                    n,
                    ctx,
                    path,
                )[i]).len() == 1,
            (first_rows(self.nested(n, ctx, path)) + self.fields(n, ctx, path)).to_multiset()
                == self.leaves_of_first(n, ctx, path).to_multiset(),
        decreases self, 0nat, n,
    {
        broadcast use vstd::seq_lib::lemma_multiset_commutative;

        if n > 0 {
            let child = self->Sub_1[n - 1];
            let m = (n - 1) as nat;
            self.lemma_groups_without_arrays(m, ctx, path);
            let before = self.nested(m, ctx, path);
            let fields = self.fields(m, ctx, path);
            if child is Sub {
                let inner = child.context_in(ctx);
                assert(child.no_empty_sub());
                assert(child.finds_no_array(inner));
                child.lemma_one_row_without_arrays(inner, path);
                let group = child.group(ctx, path);
                assert(group == child.rows(inner, path));
                let after = before.push(group);
                assert(after.drop_last() =~= before);
                assert(first_rows(after) == first_rows(before) + group[0]);
                assert((first_rows(after) + fields).to_multiset() =~= self.leaves_of_first(
                    n,
                    ctx,
                    path,
                ).to_multiset());
            } else {
                let field = child.leaf(ctx, path);
                assert(child.leaves(child.context_in(ctx), path) == seq![field]);
                assert(first_rows(before) + fields.push(field) =~= (first_rows(before)
                    + fields) + seq![field]);
                assert(((first_rows(before) + fields) + seq![field]).to_multiset()
                    =~= self.leaves_of_first(n, ctx, path).to_multiset());
            }
        } else {
            assert(first_rows(self.nested(n, ctx, path)) + self.fields(n, ctx, path)
                =~= self.leaves_of_first(n, ctx, path));
        }
    }
}

} // verus!
