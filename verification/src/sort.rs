//! Stable ordering of the entries of one listing.
//!
//! An order is kept as a sequence of indices into the entries: position `i`
//! of the sorted listing shows the entry at index `p[i]`.

use vstd::prelude::*;
use vstd::set_lib::{lemma_int_range, lemma_len_subset, lemma_subset_equality, set_int_range};
use crate::listing::{nth, pick, Listing};
use crate::order::{follows, lemma_negation, lemma_swap, lemma_transitive, precedes, ties, Field};

verus! {

/// The entry at index `x` may stand before the one at index `y`: it sorts
/// strictly before it, or the two tie and it came first in the input.
pub open spec fn may_precede(
    entries: Seq<Listing>,
    field: Field,
    reverse: bool,
    x: usize,
    y: usize,
) -> bool {
    precedes(field, reverse, nth(entries, x), nth(entries, y)) || (ties(
        field,
        reverse,
        nth(entries, x),
        nth(entries, y),
    ) && x < y)
}

/// The entry at position `i` of the order `p` may stand before the one at
/// position `j`.
pub open spec fn in_order(
    entries: Seq<Listing>,
    field: Field,
    reverse: bool,
    p: Seq<usize>,
    i: int,
    j: int,
) -> bool {
    may_precede(entries, field, reverse, p[i], p[j])
}

/// `p` is the stable sort of `entries` by `field`: it lists indices of
/// `entries`, as many as there are entries, and every earlier position may
/// stand before every later one. No index can then occur twice, so `p` is a
/// permutation of the indices.
pub open spec fn is_stable_order(entries: Seq<Listing>, field: Field, reverse: bool, p: Seq<usize>) -> bool {
    &&& p.len() == entries.len()
    &&& forall|i: int| 0 <= i < p.len() ==> #[trigger] p[i] < entries.len()
    &&& forall|i: int, j: int|
        0 <= i < j < p.len() ==> #[trigger] in_order(entries, field, reverse, p, i, j)
}

/// `p` is the stable sort of the entries at the indices from `lo` up to,
/// not including, `hi`.
pub open spec fn is_stable_run(
    entries: Seq<Listing>,
    field: Field,
    reverse: bool,
    p: Seq<usize>,
    lo: int,
    hi: int,
) -> bool {
    &&& p.len() == hi - lo
    &&& forall|i: int| 0 <= i < p.len() ==> lo <= #[trigger] p[i] < hi
    &&& forall|i: int, j: int|
        0 <= i < j < p.len() ==> #[trigger] may_precede(entries, field, reverse, p[i], p[j])
}

/// "May stand before" is transitive.
proof fn lemma_may_precede_transitive(
    entries: Seq<Listing>,
    field: Field,
    reverse: bool,
    x: usize,
    y: usize,
    z: usize,
)
    requires
        may_precede(entries, field, reverse, x, y),
        may_precede(entries, field, reverse, y, z),
    ensures
        may_precede(entries, field, reverse, x, z),
{
    lemma_transitive(field, reverse, nth(entries, x), nth(entries, y), nth(entries, z));
    lemma_swap(field, reverse, nth(entries, x), nth(entries, y));
    lemma_swap(field, reverse, nth(entries, y), nth(entries, z));
}

/// Merges the stable sorts of two adjoining ranges of indices into the
/// stable sort of the whole range. On a tie the left run goes first: its
/// indices are the smaller ones.
fn merge_runs(
    entries: &Vec<Listing>,
    field: Field,
    reverse: bool,
    left: &Vec<usize>,
    right: &Vec<usize>,
    lo: usize,
    mid: usize,
    hi: usize,
) -> (p: Vec<usize>)
    requires
        lo <= mid <= hi <= entries.len(),
        is_stable_run(entries@, field, reverse, left@, lo as int, mid as int),
        is_stable_run(entries@, field, reverse, right@, mid as int, hi as int),
    ensures
        is_stable_run(entries@, field, reverse, p@, lo as int, hi as int),
{
    let mut p: Vec<usize> = Vec::new();
    let mut i: usize = 0;
    let mut j: usize = 0;
    while i < left.len() || j < right.len()
        invariant
            lo <= mid <= hi <= entries.len(),
            is_stable_run(entries@, field, reverse, left@, lo as int, mid as int),
            is_stable_run(entries@, field, reverse, right@, mid as int, hi as int),
            i <= left.len(),
            j <= right.len(),
            p.len() == i + j,
            forall|a: int| 0 <= a < p.len() ==> lo <= #[trigger] p@[a] < hi,
            forall|a: int, b: int|
                0 <= a < b < p.len() ==> #[trigger] may_precede(
                    entries@,
                    field,
                    reverse,
                    p@[a],
                    p@[b],
                ),
            forall|a: int, b: int|
                0 <= a < p.len() && i <= b < left.len() ==> #[trigger] may_precede(
                    entries@,
                    field,
                    reverse,
                    p@[a],
                    left@[b],
                ),
            forall|a: int, b: int|
                0 <= a < p.len() && j <= b < right.len() ==> #[trigger] may_precede(
                    entries@,
                    field,
                    reverse,
                    p@[a],
                    right@[b],
                ),
        decreases left.len() - i + right.len() - j,
    {
        let from_left = if i == left.len() {
            false
        } else if j == right.len() {
            true
        } else {
            !field.ranks_after(reverse, &entries[left[i]], &entries[right[j]])
        };
        let ghost before = p@;
        if from_left {
            let x = left[i];
            proof {
                assert forall|b: int| i < b < left.len() implies #[trigger] may_precede(
                    entries@,
                    field,
                    reverse,
                    x,
                    left@[b],
                ) by {
                    assert(may_precede(entries@, field, reverse, left@[i as int], left@[b]));
                }
                assert forall|b: int| j <= b < right.len() implies #[trigger] may_precede(
                    entries@,
                    field,
                    reverse,
                    x,
                    right@[b],
                ) by {
                    let first = right@[j as int];
                    assert(x < mid <= first);
                    assert(may_precede(entries@, field, reverse, x, first));
                    if b > j {
                        assert(may_precede(entries@, field, reverse, right@[j as int], right@[b]));
                        lemma_may_precede_transitive(entries@, field, reverse, x, first, right@[b]);
                    }
                }
            }
            p.push(x);
            i += 1;
        } else {
            let y = right[j];
            proof {
                assert forall|b: int| j < b < right.len() implies #[trigger] may_precede(
                    entries@,
                    field,
                    reverse,
                    y,
                    right@[b],
                ) by {
                    assert(may_precede(entries@, field, reverse, right@[j as int], right@[b]));
                }
                assert forall|b: int| i <= b < left.len() implies #[trigger] may_precede(
                    entries@,
                    field,
                    reverse,
                    y,
                    left@[b],
                ) by {
                    let first = left@[i as int];
                    lemma_swap(field, reverse, nth(entries@, first), nth(entries@, y));
                    assert(may_precede(entries@, field, reverse, y, first));
                    if b > i {
                        assert(may_precede(entries@, field, reverse, left@[i as int], left@[b]));
                        lemma_may_precede_transitive(entries@, field, reverse, y, first, left@[b]);
                    }
                }
            }
            p.push(y);
            j += 1;
        }
        proof {
            let last = p@.len() - 1;
            assert forall|a: int, b: int| 0 <= a < b < p@.len() implies #[trigger] may_precede(
                entries@,
                field,
                reverse,
                p@[a],
                p@[b],
            ) by {
                assert(p@[a] == before[a]);
                if b < last {
                    assert(p@[b] == before[b]);
                    assert(may_precede(entries@, field, reverse, before[a], before[b]));
                } else if from_left {
                    assert(may_precede(entries@, field, reverse, before[a], left@[i - 1]));
                } else {
                    assert(may_precede(entries@, field, reverse, before[a], right@[j - 1]));
                }
            }
            assert forall|a: int, b: int|
                0 <= a < p@.len() && i <= b < left.len() implies #[trigger] may_precede(
                entries@,
                field,
                reverse,
                p@[a],
                left@[b],
            ) by {
                if a < last {
                    assert(may_precede(entries@, field, reverse, before[a], left@[b]));
                }
            }
            assert forall|a: int, b: int|
                0 <= a < p@.len() && j <= b < right.len() implies #[trigger] may_precede(
                entries@,
                field,
                reverse,
                p@[a],
                right@[b],
            ) by {
                if a < last {
                    assert(may_precede(entries@, field, reverse, before[a], right@[b]));
                }
            }
            assert forall|a: int| 0 <= a < p@.len() implies lo <= #[trigger] p@[a] < hi by {
                if a < last {
                    assert(p@[a] == before[a]);
                }
            }
        }
    }
    p
}

/// The stable sort of the entries at the indices from `lo` up to `hi`, by
/// merging the sorts of the two halves.
fn sort_range(entries: &Vec<Listing>, field: Field, reverse: bool, lo: usize, hi: usize) -> (p: Vec<
    usize,
>)
    requires
        lo <= hi <= entries.len(),
    ensures
        is_stable_run(entries@, field, reverse, p@, lo as int, hi as int),
    decreases hi - lo,
{
    let mut p: Vec<usize> = Vec::new();
    if hi - lo == 0 {
        p
    } else if hi - lo == 1 {
        p.push(lo);
        p
    } else {
        let mid: usize = lo + (hi - lo) / 2;
        let left = sort_range(entries, field, reverse, lo, mid);
        let right = sort_range(entries, field, reverse, mid, hi);
        merge_runs(entries, field, reverse, &left, &right, lo, mid, hi)
    }
}

/// The stable sort of `entries` by `field`, with the comparator negated
/// where `reverse` is set.
pub fn sorted_order(entries: &Vec<Listing>, field: Field, reverse: bool) -> (p: Vec<usize>)
    ensures
        is_stable_order(entries@, field, reverse, p@),
{
    let p = sort_range(entries, field, reverse, 0, entries.len());
    proof {
        assert forall|i: int, j: int| 0 <= i < j < p@.len() implies #[trigger] in_order(
            entries@,
            field,
            reverse,
            p@,
            i,
            j,
        ) by {
            assert(may_precede(entries@, field, reverse, p@[i], p@[j]));
        }
    }
    p
}

/// In a stable order no index occurs twice.
pub proof fn lemma_no_repeats(
    entries: Seq<Listing>,
    field: Field,
    reverse: bool,
    p: Seq<usize>,
    i: int,
    j: int,
)
    requires
        is_stable_order(entries, field, reverse, p),
        0 <= i < j < p.len(),
    ensures
        p[i] != p[j],
{
    assert(in_order(entries, field, reverse, p, i, j));
    lemma_swap(field, reverse, pick(entries, p, i), pick(entries, p, j));
}

/// In a stable order every index occurs: the order is a permutation of
/// the indices of the entries.
pub proof fn lemma_every_index_occurs(
    entries: Seq<Listing>,
    field: Field,
    reverse: bool,
    p: Seq<usize>,
    x: int,
)
    requires
        is_stable_order(entries, field, reverse, p),
        0 <= x < entries.len(),
    ensures
        exists|i: int| 0 <= i < p.len() && p[i] == x,
{
    let q = Seq::new(p.len(), |i: int| p[i] as int);
    assert forall|i: int, j: int| 0 <= i < q.len() && 0 <= j < q.len() && i != j implies q[i]
        != q[j] by {
        if i < j {
            lemma_no_repeats(entries, field, reverse, p, i, j);
        } else {
            lemma_no_repeats(entries, field, reverse, p, j, i);
        }
    }
    q.unique_seq_to_set();
    let range = set_int_range(0, entries.len() as int);
    lemma_int_range(0, entries.len() as int);
    assert forall|v: int| q.to_set().contains(v) implies range.contains(v) by {
        let i = choose|i: int| 0 <= i < q.len() && q[i] == v;
        assert(p[i] < entries.len());
    }
    lemma_len_subset(q.to_set(), range);
    lemma_subset_equality(q.to_set(), range);
    assert(range.contains(x));
    assert(q.contains(x));
    let i = choose|i: int| 0 <= i < q.len() && q[i] == x;
    assert(p[i] == x);
}

proof fn lemma_agree_at(
    entries: Seq<Listing>,
    field: Field,
    reverse: bool,
    p: Seq<usize>,
    q: Seq<usize>,
    i: int,
)
    requires
        is_stable_order(entries, field, reverse, p),
        is_stable_order(entries, field, reverse, q),
        0 <= i < p.len(),
    ensures
        p[i] == q[i],
    decreases i,
{
    assert forall|m: int| 0 <= m < i implies p[m] == q[m] by {
        lemma_agree_at(entries, field, reverse, p, q, m);
    }
    if p[i] != q[i] {
        lemma_every_index_occurs(entries, field, reverse, q, p[i] as int);
        let k = choose|k: int| 0 <= k < q.len() && q[k] == p[i];
        lemma_every_index_occurs(entries, field, reverse, p, q[i] as int);
        let l = choose|l: int| 0 <= l < p.len() && p[l] == q[i];
        if k < i {
            lemma_no_repeats(entries, field, reverse, p, k, i);
        }
        if l < i {
            lemma_no_repeats(entries, field, reverse, q, l, i);
        }
        assert(in_order(entries, field, reverse, p, i, l));
        assert(in_order(entries, field, reverse, q, i, k));
        lemma_swap(field, reverse, pick(entries, p, i), pick(entries, p, l));
    }
}

/// The entries, the field and the direction determine the stable order:
/// there is exactly one.
pub proof fn lemma_stable_order_is_unique(
    entries: Seq<Listing>,
    field: Field,
    reverse: bool,
    p: Seq<usize>,
    q: Seq<usize>,
)
    requires
        is_stable_order(entries, field, reverse, p),
        is_stable_order(entries, field, reverse, q),
    ensures
        p == q,
{
    assert forall|i: int| 0 <= i < p.len() implies p[i] == q[i] by {
        lemma_agree_at(entries, field, reverse, p, q, i);
    }
    assert(p =~= q);
}

/// Sorting with the comparator negated mirrors the sort: two entries whose
/// keys differ change places, and two entries whose keys tie keep the
/// relative order they have in the forward sort, which is that of the input.
///
/// Positions `i < j` of the forward order and `k`, `l` of the backward
/// order show the same two entries.
pub proof fn lemma_reverse_mirrors(
    entries: Seq<Listing>,
    field: Field,
    forward: Seq<usize>,
    backward: Seq<usize>,
    i: int,
    j: int,
    k: int,
    l: int,
)
    requires
        is_stable_order(entries, field, false, forward),
        is_stable_order(entries, field, true, backward),
        0 <= i < j < forward.len(),
        0 <= k < backward.len(),
        0 <= l < backward.len(),
        backward[k] == forward[i],
        backward[l] == forward[j],
    ensures
        !follows(field, false, pick(entries, forward, i), pick(entries, forward, j)),
        precedes(field, false, pick(entries, forward, i), pick(entries, forward, j)) ==> l < k,
        ties(field, false, pick(entries, forward, i), pick(entries, forward, j)) ==> k < l
            && forward[i] < forward[j],
{
    let a = pick(entries, forward, i);
    let b = pick(entries, forward, j);
    assert(in_order(entries, field, false, forward, i, j));
    lemma_no_repeats(entries, field, false, forward, i, j);
    lemma_negation(field, a, b);
    lemma_negation(field, b, a);
    lemma_swap(field, false, a, b);
    if k < l {
        assert(in_order(entries, field, true, backward, k, l));
    } else if l < k {
        assert(in_order(entries, field, true, backward, l, k));
    }
}

/// Where no two entries tie, sorting with the comparator negated gives
/// exactly the forward sort read backwards.
pub proof fn lemma_reverse_without_ties(
    entries: Seq<Listing>,
    field: Field,
    forward: Seq<usize>,
    backward: Seq<usize>,
)
    requires
        is_stable_order(entries, field, false, forward),
        is_stable_order(entries, field, true, backward),
        forall|x: int, y: int|
            0 <= x < y < entries.len() ==> !#[trigger] ties(field, false, entries[x], entries[y]),
    ensures
        backward == forward.reverse(),
{
    let mirrored = forward.reverse();
    let n = forward.len() as int;
    assert forall|i: int, j: int| 0 <= i < j < mirrored.len() implies #[trigger] in_order(
        entries,
        field,
        true,
        mirrored,
        i,
        j,
    ) by {
        let a = pick(entries, mirrored, i);
        let b = pick(entries, mirrored, j);
        assert(mirrored[i] == forward[n - 1 - i]);
        assert(mirrored[j] == forward[n - 1 - j]);
        assert(in_order(entries, field, false, forward, n - 1 - j, n - 1 - i));
        lemma_no_repeats(entries, field, false, forward, n - 1 - j, n - 1 - i);
        lemma_swap(field, false, b, a);
        lemma_negation(field, a, b);
        if mirrored[i] < mirrored[j] {
            assert(!ties(field, false, entries[mirrored[i] as int], entries[mirrored[j] as int]));
        } else {
            assert(!ties(field, false, entries[mirrored[j] as int], entries[mirrored[i] as int]));
        }
    }
    assert forall|i: int| 0 <= i < mirrored.len() implies #[trigger] mirrored[i]
        < entries.len() by {
        assert(mirrored[i] == forward[n - 1 - i]);
    }
    lemma_stable_order_is_unique(entries, field, true, backward, mirrored);
}

/// Without a sort field the order is the input order, in either direction.
pub proof fn lemma_unsorted_keeps_input_order(entries: Seq<Listing>, reverse: bool, p: Seq<usize>, i: int)
    requires
        is_stable_order(entries, Field::Unsorted, reverse, p),
        0 <= i < p.len(),
    ensures
        p[i] == i,
{
    lemma_climbs(entries, reverse, p, i);
    lemma_bounded(entries, reverse, p, i);
}

proof fn lemma_climbs(entries: Seq<Listing>, reverse: bool, p: Seq<usize>, i: int)
    requires
        is_stable_order(entries, Field::Unsorted, reverse, p),
        0 <= i < p.len(),
    ensures
        p[i] >= i,
    decreases i,
{
    if i > 0 {
        lemma_climbs(entries, reverse, p, i - 1);
        assert(in_order(entries, Field::Unsorted, reverse, p, i - 1, i));
    }
}

proof fn lemma_bounded(entries: Seq<Listing>, reverse: bool, p: Seq<usize>, i: int)
    requires
        is_stable_order(entries, Field::Unsorted, reverse, p),
        0 <= i < p.len(),
    ensures
        p[i] <= i,
    decreases p.len() - i,
{
    if i < p.len() - 1 {
        lemma_bounded(entries, reverse, p, i + 1);
        assert(in_order(entries, Field::Unsorted, reverse, p, i, i + 1));
    } else {
        assert(p[i] < entries.len());
    }
}

} // verus!
