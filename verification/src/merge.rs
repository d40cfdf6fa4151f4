//! Combining sibling groups of rows by ordered cross product.

use crate::record::{clone_record, Record, Row};
use vstd::prelude::*;

verus! {

/// The rows that `row` makes with each row of `left`, in the order of `left`:
/// the fields of `row` first, those of the row of `left` after them.
pub open spec fn paired(left: Seq<Row>, row: Row) -> Seq<Row> {
    Seq::new(left.len(), |j: int| row + left[j])
}

/// The cross product of two groups. Every row of `right`, in order, is paired
/// with every row of `left`, in order; a combined row holds the fields of the
/// row of `right` first and those of the row of `left` second.
pub open spec fn cross(left: Seq<Row>, right: Seq<Row>) -> Seq<Row> {
    Seq::new(right.len(), |i: int| paired(left, right[i])).flatten()
}

/// The accumulator `head` after the groups of `rest` were crossed into it, the
/// first of them first, each time with the accumulator as `left`.
pub open spec fn folded(head: Seq<Row>, rest: Seq<Seq<Row>>) -> Seq<Row> {
    rest.fold_left(head, |acc: Seq<Row>, group: Seq<Row>| cross(acc, group))
}

/// The rows that a list of groups merges to. No group gives no row and one
/// group gives its own rows. Two groups give their cross product, the first as
/// `left`. With more, the last group is the first accumulator and the others
/// are crossed into it in their order.
pub open spec fn merged(groups: Seq<Seq<Row>>) -> Seq<Row> {
    if groups.len() == 0 {
        Seq::empty()
    } else if groups.len() == 1 {
        groups[0]
    } else if groups.len() == 2 {
        cross(groups[0], groups[1])
    } else {
        folded(groups.last(), groups.drop_last())
    }
}

/// The product of the numbers of rows of `groups`.
pub open spec fn product_of_lens(groups: Seq<Seq<Row>>) -> nat
    decreases groups.len(),
{
    if groups.len() == 0 {
        1
    } else {
        product_of_lens(groups.drop_last()) * groups.last().len()
    }
}

/// The first rows of `groups`, one after the other.
pub open spec fn first_rows(groups: Seq<Seq<Row>>) -> Row
    decreases groups.len(),
{
    if groups.len() == 0 {
        Seq::empty()
    } else {
        first_rows(groups.drop_last()) + groups.last()[0]
    }
}

/// Merging no group gives no row.
pub proof fn lemma_merged_nothing()
    ensures
        merged(Seq::empty()) == Seq::<Row>::empty(),
{
}

/// Merging one group gives that group, whatever it holds.
pub proof fn lemma_merged_one(group: Seq<Row>)
    ensures
        merged(seq![group]) == group,
{
}

/// Crossing with one more row on the right adds that row's pairs at the end.
pub proof fn lemma_cross_push(left: Seq<Row>, right: Seq<Row>, row: Row)
    ensures
        cross(left, right.push(row)) == cross(left, right) + paired(left, row),
{
    let longer = Seq::new(right.push(row).len(), |i: int| paired(left, right.push(row)[i]));
    let shorter = Seq::new(right.len(), |i: int| paired(left, right[i]));
    assert(longer =~= shorter.push(paired(left, row)));
    shorter.lemma_flatten_push(paired(left, row));
}

/// The cross product has one row for every pair of rows.
pub proof fn lemma_cross_len(left: Seq<Row>, right: Seq<Row>)
    ensures
        cross(left, right).len() == left.len() * right.len(),
    decreases right.len(),
{
    if right.len() == 0 {
        assert(cross(left, right) =~= Seq::<Row>::empty());
    } else {
        let front = right.drop_last();
        assert(right =~= front.push(right.last()));
        lemma_cross_push(left, front, right.last());
        lemma_cross_len(left, front);
        assert(left.len() * right.len() == left.len() * front.len() + left.len())
            by (nonlinear_arith)
            requires
                right.len() == front.len() + 1,
        ;
    }
}

/// Two groups of one row each cross to one row: the right row, then the left.
pub proof fn lemma_cross_single(left: Seq<Row>, right: Seq<Row>)
    requires
        left.len() == 1,
        right.len() == 1,
    ensures
        cross(left, right) == seq![right[0] + left[0]],
{
    let inner = Seq::new(right.len(), |i: int| paired(left, right[i]));
    inner.lemma_flatten_singleton();
    assert(paired(left, right[0]) =~= seq![right[0] + left[0]]);
}

/// Crossing one more group into the accumulator is the last step of the fold.
pub proof fn lemma_folded_push(head: Seq<Row>, rest: Seq<Seq<Row>>, group: Seq<Row>)
    ensures
        folded(head, rest.push(group)) == cross(folded(head, rest), group),
{
    assert(rest.push(group).drop_last() =~= rest);
}

proof fn lemma_folded_len(head: Seq<Row>, rest: Seq<Seq<Row>>)
    ensures
        folded(head, rest).len() == head.len() * product_of_lens(rest),
    decreases rest.len(),
{
    if rest.len() == 0 {
        assert(head.len() * 1 == head.len());
    } else {
        lemma_folded_len(head, rest.drop_last());
        lemma_cross_len(folded(head, rest.drop_last()), rest.last());
        let a = head.len();
        let b = product_of_lens(rest.drop_last());
        let c = rest.last().len();
        assert((a * b) * c == a * (b * c)) by (nonlinear_arith);
    }
}

/// Merging one group or more gives as many rows as the product of the
/// groups' numbers of rows.
pub proof fn lemma_merged_len(groups: Seq<Seq<Row>>)
    ensures
        merged(groups).len() == if groups.len() == 0 {
            0
        } else {
            product_of_lens(groups)
        },
{
    if groups.len() == 1 {
        assert(product_of_lens(groups.drop_last()) == 1);
        assert(product_of_lens(groups) == 1 * groups[0].len());
    } else if groups.len() == 2 {
        lemma_cross_len(groups[0], groups[1]);
        let front = groups.drop_last();
        assert(product_of_lens(front.drop_last()) == 1);
        assert(product_of_lens(front) == 1 * groups[0].len());
    } else if groups.len() > 2 {
        lemma_folded_len(groups.last(), groups.drop_last());
        let a = groups.last().len();
        let b = product_of_lens(groups.drop_last());
        assert(a * b == b * a) by (nonlinear_arith);
    }
}

proof fn lemma_folded_single_rows(head: Seq<Row>, rest: Seq<Seq<Row>>)
    requires
        head.len() == 1,
        forall|i: int| 0 <= i < rest.len() ==> (#[trigger] rest[i]).len() == 1,
    ensures
        folded(head, rest).len() == 1,
        folded(head, rest)[0].to_multiset() == (first_rows(rest) + head[0]).to_multiset(),
    decreases rest.len(),
{
    broadcast use vstd::seq_lib::lemma_multiset_commutative;

    if rest.len() == 0 {
        assert(first_rows(rest) + head[0] =~= head[0]);
    } else {
        let acc = folded(head, rest.drop_last());
        lemma_folded_single_rows(head, rest.drop_last());
        lemma_cross_single(acc, rest.last());
        assert((rest.last()[0] + acc[0]).to_multiset() =~= (first_rows(rest)
            + head[0]).to_multiset());
    }
}

/// Groups of one row each merge to one row, which holds the fields of all of
/// them, each as often as the groups' rows hold it.
pub proof fn lemma_merged_single_rows(groups: Seq<Seq<Row>>)
    requires
        groups.len() > 0,
        forall|i: int| 0 <= i < groups.len() ==> (#[trigger] groups[i]).len() == 1,
    ensures
        merged(groups).len() == 1,
        merged(groups)[0].to_multiset() == first_rows(groups).to_multiset(),
{
    broadcast use vstd::seq_lib::lemma_multiset_commutative;

    if groups.len() == 1 {
        assert(first_rows(groups.drop_last()) =~= Seq::empty());
        assert(first_rows(groups) =~= groups[0][0]);
    } else if groups.len() == 2 {
        lemma_cross_single(groups[0], groups[1]);
        let front = groups.drop_last();
        assert(first_rows(front.drop_last()) =~= Seq::empty());
        assert(first_rows(front) =~= groups[0][0]);
        assert((groups[1][0] + groups[0][0]).to_multiset() =~= (groups[0][0]
            + groups[1][0]).to_multiset());
    } else {
        lemma_folded_single_rows(groups.last(), groups.drop_last());
    }
    assert(merged(groups)[0].to_multiset() =~= first_rows(groups).to_multiset());
}

/// Merges two groups into their cross product.
pub fn merge_two(left: Vec<Record>, right: Vec<Record>) -> (rows: Vec<Record>)
    ensures
        rows.deep_view() == cross(left.deep_view(), right.deep_view()),
{
    cross_rows(&left, &right)
}

fn cross_rows(left: &Vec<Record>, right: &Vec<Record>) -> (rows: Vec<Record>)
    ensures
        rows.deep_view() == cross(left.deep_view(), right.deep_view()),
{
    let ghost lefts = left.deep_view();
    let ghost rights = right.deep_view();
    let mut rows: Vec<Record> = Vec::new();
    let mut i: usize = 0;
    assert(rows.deep_view() =~= cross(lefts, rights.take(0)));
    while i < right.len()
        invariant
            i <= right.len(),
            lefts == left.deep_view(),
            rights == right.deep_view(),
            rows.deep_view() == cross(lefts, rights.take(i as int)),
        decreases right.len() - i,
    {
        let ghost done = rows.deep_view();
        let ghost row = rights[i as int];
        let mut j: usize = 0;
        assert(rows.deep_view() =~= done + paired(lefts.take(0), row));
        while j < left.len()
            invariant
                i < right.len(),
                j <= left.len(),
                lefts == left.deep_view(),
                row == right.deep_view()[i as int],
                rows.deep_view() == done + paired(lefts.take(j as int), row),
            decreases left.len() - j,
        {
            let mut joined = clone_record(&right[i]);
            let mut tail = clone_record(&left[j]);
            joined.append(&mut tail);
            assert(joined.deep_view() =~= row + lefts[j as int]);
            let ghost before = rows.deep_view();
            rows.push(joined);
            assert(rows.deep_view() =~= before.push(row + lefts[j as int]));
            assert(paired(lefts.take(j + 1), row) =~= paired(lefts.take(j as int), row).push(
                row + lefts[j as int],
            ));
            j = j + 1;
        }
        proof {
            assert(lefts.take(left.len() as int) =~= lefts);
            assert(rights.take(i + 1) =~= rights.take(i as int).push(row));
            lemma_cross_push(lefts, rights.take(i as int), row);
        }
        i = i + 1;
    }
    assert(rights.take(right.len() as int) =~= rights);
    rows
}

/// Merges the groups that sibling schema nodes produced into one list of rows.
pub fn merge(sets: Vec<Vec<Record>>) -> (rows: Vec<Record>)
    ensures
        rows.deep_view() == merged(sets.deep_view()),
        sets.len() == 0 ==> rows.len() == 0,
        sets.len() == 1 ==> rows.deep_view() == sets[0].deep_view(),
{
    let ghost groups = sets.deep_view();
    let mut sets = sets;
    let n = sets.len();
    if n == 0 {
        Vec::new()
    } else if n == 1 {
        sets.pop().unwrap()
    } else if n == 2 {
        let right = sets.pop().unwrap();
        let left = sets.pop().unwrap();
        merge_two(left, right)
    } else {
        let mut acc = sets.pop().unwrap();
        let ghost head = acc.deep_view();
        let ghost rest = sets.deep_view();
        assert(rest =~= groups.drop_last());
        let mut i: usize = 0;
        assert(rest.take(0) =~= Seq::empty());
        while i < sets.len()
            invariant
                i <= sets.len(),
                rest == sets.deep_view(),
                acc.deep_view() == folded(head, rest.take(i as int)),
            decreases sets.len() - i,
        {
            proof {
                assert(rest.take(i + 1) =~= rest.take(i as int).push(rest[i as int]));
                lemma_folded_push(head, rest.take(i as int), rest[i as int]);
            }
            acc = cross_rows(&acc, &sets[i]);
            i = i + 1;
        }
        assert(rest.take(sets.len() as int) =~= rest);
        acc
    }
}

} // verus!
