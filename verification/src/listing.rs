use crate::boat::Boat;
use crate::text::{push_repeated, repeat};
use std::collections::HashMap;
use vstd::prelude::*;
use vstd::std_specs::iter::IteratorSpec;
use vstd::string::StringExecFns;

verus! {

/// The number of lines on which the boats that stand upright are drawn.
pub const UPRIGHT_ROWS: u32 = 5;

/// `sorted` with `value` put behind the last entry that is not smaller.
pub open spec fn insert_descending(sorted: Seq<u32>, value: u32) -> Seq<u32>
    decreases sorted.len(),
{
    if sorted.len() == 0 || sorted.last() >= value {
        sorted.push(value)
    } else {
        insert_descending(sorted.drop_last(), value).push(sorted.last())
    }
}

/// The entries of `values` from the greatest to the smallest.
pub open spec fn sorted_descending(values: Seq<u32>) -> Seq<u32>
    decreases values.len(),
{
    if values.len() == 0 {
        Seq::empty()
    } else {
        insert_descending(sorted_descending(values.drop_last()), values.last())
    }
}

/// No entry is smaller than a later one.
pub open spec fn is_descending(values: Seq<u32>) -> bool {
    forall|i: int, j: int| 0 <= i < j < values.len() ==> values[i] >= values[j]
}

/// The boat of that shape lies along x: it is more than one piece wide.
pub open spec fn lies_across(shape: (u32, u32)) -> bool {
    shape.0 > 1
}

/// The widths of the boats that lie along x, in the order of `shapes`.
pub open spec fn lengths_across(shapes: Seq<(u32, u32)>) -> Seq<u32>
    decreases shapes.len(),
{
    if shapes.len() == 0 {
        Seq::empty()
    } else if lies_across(shapes.last()) {
        lengths_across(shapes.drop_last()).push(shapes.last().0)
    } else {
        lengths_across(shapes.drop_last())
    }
}

/// The heights of the other boats, in the order of `shapes`.
pub open spec fn lengths_upright(shapes: Seq<(u32, u32)>) -> Seq<u32>
    decreases shapes.len(),
{
    if shapes.len() == 0 {
        Seq::empty()
    } else if lies_across(shapes.last()) {
        lengths_upright(shapes.drop_last())
    } else {
        lengths_upright(shapes.drop_last()).push(shapes.last().1)
    }
}

/// The boats that lie along x, one under the other: for each a row of `X`
/// and two empty lines.
pub open spec fn across_text(lengths: Seq<u32>) -> Seq<char>
    decreases lengths.len(),
{
    if lengths.len() == 0 {
        Seq::empty()
    } else {
        across_text(lengths.drop_last()) + repeat("X"@, lengths.last() as nat) + "\n\n\n"@
    }
}

/// Line `row` of the boats that stand upright, side by side: for each an
/// `X` and two blanks where the boat reaches the line, four blanks where it
/// does not.
pub open spec fn upright_line(lengths: Seq<u32>, row: u32) -> Seq<char>
    decreases lengths.len(),
{
    if lengths.len() == 0 {
        Seq::empty()
    } else if row < lengths.last() {
        upright_line(lengths.drop_last(), row) + "X  "@
    } else {
        upright_line(lengths.drop_last(), row) + "    "@
    }
}

/// The first `rows` lines of the boats that stand upright.
pub open spec fn upright_lines(lengths: Seq<u32>, rows: u32) -> Seq<char>
    decreases rows,
{
    if rows == 0 {
        Seq::empty()
    } else {
        upright_lines(lengths, (rows - 1) as u32) + upright_line(lengths, (rows - 1) as u32)
            + "\n"@
    }
}

/// The boats that stand upright: five lines if there is such a boat, else
/// nothing.
pub open spec fn upright_text(lengths: Seq<u32>) -> Seq<char> {
    if lengths.len() == 0 {
        Seq::empty()
    } else {
        upright_lines(lengths, UPRIGHT_ROWS)
    }
}

/// The list of a fleet of those shapes: a heading, the boats that lie along
/// x from the widest down, then the other boats side by side from the
/// tallest down. Each boat is drawn as a line of its length.
pub open spec fn listing(shapes: Seq<(u32, u32)>) -> Seq<char> {
    "Your fleet:\n"@ + across_text(sorted_descending(lengths_across(shapes))) + upright_text(
        sorted_descending(lengths_upright(shapes)),
    )
}

/// Where `value` goes into `sorted`: behind the first `at` entries, if all
/// later ones are smaller and the one before is not.
pub proof fn lemma_insert_at(sorted: Seq<u32>, value: u32, at: int)
    requires
        0 <= at <= sorted.len(),
        forall|j: int| at <= j < sorted.len() ==> sorted[j] < value,
        at > 0 ==> sorted[at - 1] >= value,
    ensures
        insert_descending(sorted, value) == sorted.take(at).push(value) + sorted.skip(at),
    decreases sorted.len() - at,
{
    if at == sorted.len() {
        assert(sorted.take(at) =~= sorted);
        assert(sorted.push(value) + sorted.skip(at) =~= sorted.push(value));
    } else {
        let front = sorted.drop_last();
        lemma_insert_at(front, value, at);
        assert(front.take(at) =~= sorted.take(at));
        assert((front.take(at).push(value) + front.skip(at)).push(sorted.last())
            =~= sorted.take(at).push(value) + sorted.skip(at));
    }
}

/// Putting a value into a descending sequence keeps it descending and adds
/// just that value.
pub proof fn lemma_insert_descending(sorted: Seq<u32>, value: u32)
    requires
        is_descending(sorted),
    ensures
        is_descending(insert_descending(sorted, value)),
        insert_descending(sorted, value).to_multiset() == sorted.to_multiset().insert(value),
        insert_descending(sorted, value).len() == sorted.len() + 1,
    decreases sorted.len(),
{
    broadcast use vstd::seq_lib::group_to_multiset_ensures;

    if sorted.len() == 0 || sorted.last() >= value {
        let after = sorted.push(value);
        assert forall|i: int, j: int| 0 <= i < j < after.len() implies after[i] >= after[j] by {
            if j == sorted.len() {
                assert(sorted[i] >= sorted.last());
            }
        }
    } else {
        let front = sorted.drop_last();
        let last = sorted.last();
        assert(is_descending(front));
        lemma_insert_descending(front, value);
        let inner = insert_descending(front, value);
        let after = inner.push(last);
        assert(sorted =~= front.push(last));
        assert(after.to_multiset() =~= sorted.to_multiset().insert(value));
        assert forall|i: int, j: int| 0 <= i < j < after.len() implies after[i] >= after[j] by {
            if j == inner.len() {
                assert(inner.to_multiset().count(inner[i]) > 0);
                if inner[i] != value {
                    assert(front.to_multiset().count(inner[i]) > 0);
                    let k = choose|k: int| 0 <= k < front.len() && front[k] == inner[i];
                    assert(sorted[k] >= sorted[sorted.len() - 1]);
                }
            }
        }
    }
}

/// Sorting gives the same values, from the greatest to the smallest.
pub proof fn lemma_sorted_descending(values: Seq<u32>)
    ensures
        is_descending(sorted_descending(values)),
        sorted_descending(values).to_multiset() == values.to_multiset(),
        sorted_descending(values).len() == values.len(),
    decreases values.len(),
{
    broadcast use vstd::seq_lib::group_to_multiset_ensures;

    if values.len() > 0 {
        lemma_sorted_descending(values.drop_last());
        lemma_insert_descending(sorted_descending(values.drop_last()), values.last());
        assert(values =~= values.drop_last().push(values.last()));
    }
}

/// Sorting does not care in which order the values come.
pub proof fn lemma_sorting_ignores_order(a: Seq<u32>, b: Seq<u32>)
    requires
        a.to_multiset() == b.to_multiset(),
    ensures
        sorted_descending(a) == sorted_descending(b),
{
    let geq = |x: u32, y: u32| x >= y;
    lemma_sorted_descending(a);
    lemma_sorted_descending(b);
    assert(vstd::relations::total_ordering(geq));
    assert(vstd::relations::sorted_by(sorted_descending(a), geq));
    assert(vstd::relations::sorted_by(sorted_descending(b), geq));
    vstd::seq_lib::lemma_sorted_unique(sorted_descending(a), sorted_descending(b), geq);
}

/// Taking a boat out of the list takes its length out of the lengths of its
/// kind and leaves the lengths of the other kind as they were.
proof fn lemma_lengths_without(shapes: Seq<(u32, u32)>, at: int)
    requires
        0 <= at < shapes.len(),
    ensures
        lies_across(shapes[at]) ==> lengths_across(shapes).to_multiset() == lengths_across(
            shapes.remove(at),
        ).to_multiset().insert(shapes[at].0),
        lies_across(shapes[at]) ==> lengths_upright(shapes).to_multiset() == lengths_upright(
            shapes.remove(at),
        ).to_multiset(),
        !lies_across(shapes[at]) ==> lengths_upright(shapes).to_multiset() == lengths_upright(
            shapes.remove(at),
        ).to_multiset().insert(shapes[at].1),
        !lies_across(shapes[at]) ==> lengths_across(shapes).to_multiset() == lengths_across(
            shapes.remove(at),
        ).to_multiset(),
    decreases shapes.len(),
{
    broadcast use vstd::seq_lib::group_to_multiset_ensures;

    if at == shapes.len() - 1 {
        assert(shapes.remove(at) =~= shapes.drop_last());
    } else {
        lemma_lengths_without(shapes.drop_last(), at);
        assert(shapes.remove(at).drop_last() =~= shapes.drop_last().remove(at));
        assert(shapes.remove(at).last() == shapes.last());
        assert(shapes.drop_last()[at] == shapes[at]);
    }
}

/// The lengths of each kind are the same, order apart, in two lists of the
/// same boats.
proof fn lemma_lengths_ignore_order(a: Seq<(u32, u32)>, b: Seq<(u32, u32)>)
    requires
        a.to_multiset() == b.to_multiset(),
    ensures
        lengths_across(a).to_multiset() == lengths_across(b).to_multiset(),
        lengths_upright(a).to_multiset() == lengths_upright(b).to_multiset(),
    decreases a.len(),
{
    broadcast use vstd::seq_lib::group_to_multiset_ensures;

    if a.len() == 0 {
        assert(a.to_multiset().len() == 0);
        assert(b.to_multiset().len() == b.len());
        assert(b =~= a);
    } else {
        let last = a.last();
        assert(a =~= a.drop_last().push(last));
        assert(a.to_multiset().count(last) > 0);
        assert(b.contains(last));
        let at = choose|at: int| 0 <= at < b.len() && b[at] == last;
        assert(a.drop_last().to_multiset() =~= a.to_multiset().remove(last)) by {
            assert(a.remove(a.len() - 1) =~= a.drop_last());
        }
        assert(b.remove(at).to_multiset() =~= b.to_multiset().remove(last));
        lemma_lengths_ignore_order(a.drop_last(), b.remove(at));
        lemma_lengths_without(b, at);
    }
}

/// The list of a fleet does not depend on the order in which its boats are
/// given.
pub proof fn lemma_listing_ignores_order(a: Seq<(u32, u32)>, b: Seq<(u32, u32)>)
    requires
        a.to_multiset() == b.to_multiset(),
    ensures
        listing(a) == listing(b),
{
    lemma_lengths_ignore_order(a, b);
    lemma_sorting_ignores_order(lengths_across(a), lengths_across(b));
    lemma_sorting_ignores_order(lengths_upright(a), lengths_upright(b));
}

/// The values from the greatest to the smallest.
pub fn sort_descending(values: &Vec<u32>) -> (sorted: Vec<u32>)
    ensures
        sorted@ == sorted_descending(values@),
        is_descending(sorted@),
        sorted@.to_multiset() == values@.to_multiset(),
{
    let mut sorted: Vec<u32> = Vec::new();
    let mut i: usize = 0;
    while i < values.len()
        invariant
            i <= values.len(),
            sorted@ == sorted_descending(values@.take(i as int)),
            sorted@.len() == i,
        decreases values.len() - i,
    {
        let value = values[i];
        let mut at: usize = sorted.len();
        while at > 0 && sorted[at - 1] < value
            invariant
                at <= sorted.len(),
                forall|j: int| at <= j < sorted.len() ==> sorted[j] < value,
            decreases at,
        {
            at = at - 1;
        }
        proof {
            lemma_insert_at(sorted@, value, at as int);
            assert(values@.take(i + 1).drop_last() =~= values@.take(i as int));
            assert(sorted@.take(at as int).push(value) + sorted@.skip(at as int) =~= sorted@.insert(
                at as int,
                value,
            ));
        }
        sorted.insert(at, value);
        i = i + 1;
    }
    proof {
        assert(values@.take(i as int) =~= values@);
        lemma_sorted_descending(values@);
    }
    sorted
}

/// The shapes `(x_len, y_len)` of the boats of a fleet, in no particular
/// order: the shapes of the fleet's boats listed each once.
pub fn fleet_shapes(boats: &HashMap<u128, Boat>) -> (shapes: Vec<(u32, u32)>)
    ensures
        shapes@.len() == boats@.dom().len(),
        exists|listed: Seq<Boat>|
            {
                &&& listed.len() == boats@.dom().len()
                &&& listed.to_set() == boats@.values()
                &&& #[trigger] listed.len() == shapes@.len()
                &&& forall|i: int|
                    0 <= i < listed.len() ==> shapes@[i] == ((#[trigger] listed[i])@.x_len, listed[i]@.y_len)
            },
{
    broadcast use vstd::std_specs::hash::group_hash_axioms;

    let mut shapes: Vec<(u32, u32)> = Vec::new();
    let ghost all = boats.values().remaining();
    for boat in it: boats.values()
        invariant
            it.seq() == all,
            shapes@.len() == it.index(),
            forall|i: int|
                0 <= i < shapes@.len() ==> shapes@[i] == ((#[trigger] all[i])@.x_len, all[i]@.y_len),
    {
        shapes.push((boat.x_len(), boat.y_len()));
    }
    proof {
        let listed = all.unref();
        assert(listed.len() == shapes@.len());
        assert forall|i: int| 0 <= i < listed.len() implies shapes@[i] == ((
        #[trigger] listed[i])@.x_len, listed[i]@.y_len) by {
            assert(listed[i] == *all[i]);
        }
    }
    shapes
}

/// The list of a fleet of those shapes, to show to its owner.
pub fn fleet_listing(shapes: &Vec<(u32, u32)>) -> (text: String)
    ensures
        text@ == listing(shapes@),
{
    let mut across: Vec<u32> = Vec::new();
    let mut upright: Vec<u32> = Vec::new();
    let mut i: usize = 0;
    while i < shapes.len()
        invariant
            i <= shapes.len(),
            across@ == lengths_across(shapes@.take(i as int)),
            upright@ == lengths_upright(shapes@.take(i as int)),
        decreases shapes.len() - i,
    {
        assert(shapes@.take(i + 1).drop_last() =~= shapes@.take(i as int));
        if shapes[i].0 > 1 {
            across.push(shapes[i].0);
        } else {
            upright.push(shapes[i].1);
        }
        i = i + 1;
    }
    assert(shapes@.take(i as int) =~= shapes@);
    let across = sort_descending(&across);
    let upright = sort_descending(&upright);
    let mut text = String::from_str("Your fleet:\n");
    let mut k: usize = 0;
    while k < across.len()
        invariant
            k <= across.len(),
            text@ == "Your fleet:\n"@ + across_text(across@.take(k as int)),
        decreases across.len() - k,
    {
        assert(across@.take(k + 1).drop_last() =~= across@.take(k as int));
        push_repeated(&mut text, "X", across[k] as u64);
        text.append("\n\n\n");
        k = k + 1;
        assert(text@ =~= "Your fleet:\n"@ + across_text(across@.take(k as int)));
    }
    assert(across@.take(k as int) =~= across@);
    let ghost head = text@;
    if upright.len() > 0 {
        let mut row: u32 = 0;
        while row < UPRIGHT_ROWS
            invariant
                row <= UPRIGHT_ROWS,
                text@ == head + upright_lines(upright@, row),
            decreases UPRIGHT_ROWS - row,
        {
            let ghost before = text@;
            let mut k: usize = 0;
            while k < upright.len()
                invariant
                    k <= upright.len(),
                    text@ == before + upright_line(upright@.take(k as int), row),
                decreases upright.len() - k,
            {
                assert(upright@.take(k + 1).drop_last() =~= upright@.take(k as int));
                if row < upright[k] {
                    text.append("X  ");
                } else {
                    text.append("    ");
                }
                k = k + 1;
                assert(text@ =~= before + upright_line(upright@.take(k as int), row));
            }
            assert(upright@.take(k as int) =~= upright@);
            text.append("\n");
            row = row + 1;
            assert(text@ =~= head + upright_lines(upright@, row));
        }
    }
    assert(text@ =~= listing(shapes@));
    text
}

} // verus!
