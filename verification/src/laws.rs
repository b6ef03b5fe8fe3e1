//! Facts about the sequence-level descriptions of the operations.

use crate::fixed_vec::FixedVec;
use crate::model::{
    appended, collapsed, elementwise_eq, extended, kept, pushed_each, rank, resized, swap_removed,
};
use vstd::prelude::*;
use vstd::std_specs::cmp::PartialEqSpec;

verus! {

/// Marks beyond the length of `s`, and marks that agree on its positions,
/// make no difference to what is kept.
pub proof fn lemma_kept_reads_prefix<T>(s: Seq<T>, keep1: Seq<bool>, keep2: Seq<bool>)
    requires
        forall|i: int| 0 <= i < s.len() ==> keep1[i] == keep2[i],
    ensures
        kept(s, keep1) == kept(s, keep2),
    decreases s.len(),
{
    if s.len() > 0 {
        lemma_kept_reads_prefix(s.drop_last(), keep1, keep2);
    }
}

/// Looking at one more element either appends it or changes nothing.
pub proof fn lemma_kept_step<T>(s: Seq<T>, keep: Seq<bool>, n: int)
    requires
        0 <= n < s.len(),
    ensures
        kept(s.take(n + 1), keep) == if keep[n] {
            kept(s.take(n), keep).push(s[n])
        } else {
            kept(s.take(n), keep)
        },
{
    assert(s.take(n + 1).drop_last() =~= s.take(n));
}

/// Pushes that stay within the capacity all succeed: the vector then holds
/// what it held before, followed by the pushed values in the order in which
/// they were pushed.
pub proof fn lemma_pushes_within_capacity<T>(s: Seq<T>, capacity: nat, values: Seq<T>)
    requires
        s.len() + values.len() <= capacity,
    ensures
        pushed_each(s, capacity, values) == s + values,
        pushed_each(s, capacity, values).len() == s.len() + values.len(),
    decreases values.len(),
{
    if values.len() == 0 {
        assert(s + values =~= s);
    } else {
        lemma_pushes_within_capacity(s, capacity, values.drop_last());
        assert((s + values.drop_last()).push(values.last()) =~= s + values);
    }
}

/// Starting from an empty vector, pushes that stay within the capacity leave
/// exactly the pushed values, in order.
pub proof fn lemma_pushes_onto_empty<T>(capacity: nat, values: Seq<T>)
    requires
        values.len() <= capacity,
    ensures
        pushed_each(Seq::<T>::empty(), capacity, values) == values,
{
    lemma_pushes_within_capacity(Seq::<T>::empty(), capacity, values);
    assert(Seq::<T>::empty() + values =~= values);
}

/// A push onto a full vector changes nothing, however often it is tried.
pub proof fn lemma_pushes_onto_full<T>(s: Seq<T>, capacity: nat, values: Seq<T>)
    requires
        s.len() >= capacity,
    ensures
        pushed_each(s, capacity, values) == s,
    decreases values.len(),
{
    if values.len() > 0 {
        lemma_pushes_onto_full(s, capacity, values.drop_last());
    }
}

/// A bulk append that fits is the same as pushing the values one by one.
/// One that does not fit leaves the vector alone, where single pushes would
/// have filled it up.
pub proof fn lemma_appended_against_pushes<T>(s: Seq<T>, capacity: nat, values: Seq<T>)
    requires
        s.len() <= capacity,
    ensures
        s.len() + values.len() <= capacity ==> appended(s, capacity, values) == pushed_each(
            s,
            capacity,
            values,
        ),
        s.len() + values.len() > capacity ==> appended(s, capacity, values) == s && pushed_each(
            s,
            capacity,
            values,
        ).len() == capacity,
{
    lemma_extended_is_pushes(s, capacity, values);
    if s.len() + values.len() <= capacity {
        lemma_pushes_within_capacity(s, capacity, values);
    }
}

/// Extending by a sequence of items is the same as pushing them one by one
/// and ignoring the pushes that fail.
pub proof fn lemma_extended_is_pushes<T>(s: Seq<T>, capacity: nat, items: Seq<T>)
    requires
        s.len() <= capacity,
    ensures
        extended(s, capacity, items) == pushed_each(s, capacity, items),
    decreases items.len(),
{
    if items.len() == 0 {
        assert(s + items =~= s);
    } else {
        let front = items.drop_last();
        lemma_extended_is_pushes(s, capacity, front);
        if s.len() + items.len() <= capacity {
            assert((s + front).push(items.last()) =~= s + items);
        } else if s.len() + front.len() <= capacity {
            assert(items.take(capacity - s.len()) =~= front);
        } else {
            assert(items.take(capacity - s.len()) =~= front.take(capacity - s.len()));
        }
    }
}

/// Removing at the position of an insertion undoes it: the removed element
/// is the inserted one, and the sequence is what it was.
pub proof fn lemma_insert_then_remove<T>(s: Seq<T>, index: int, value: T)
    requires
        0 <= index <= s.len(),
    ensures
        s.insert(index, value)[index] == value,
        s.insert(index, value).remove(index) == s,
{
    assert(s.insert(index, value).remove(index) =~= s);
}

/// Removal in constant time takes out the same element as removal in
/// order does: the two results hold the same elements, each as often, and
/// differ at most in their order.
pub proof fn lemma_swap_removed_same_elements<T>(s: Seq<T>, index: int)
    requires
        0 <= index < s.len(),
    ensures
        swap_removed(s, index).to_multiset() == s.remove(index).to_multiset(),
        swap_removed(s, index).len() == s.len() - 1,
{
    broadcast use vstd::multiset::group_multiset_axioms;

    let last = s.len() - 1;
    if index == last {
        assert(swap_removed(s, index) =~= s.remove(index));
    } else {
        let moved = s.update(index, s[last]);
        assert(swap_removed(s, index) =~= moved.remove(last));
        vstd::seq_lib::to_multiset_update(s, index, s[last]);
        vstd::seq_lib::to_multiset_remove(moved, last);
        vstd::seq_lib::to_multiset_remove(s, index);
        assert(s.to_multiset().insert(s[last]).remove(s[index]).remove(s[last]) =~= s.to_multiset().remove(
            s[index],
        ));
    }
}

/// A resize yields exactly the asked length. The elements that stay are
/// the ones that were there, every newly live slot holds the fill value, and
/// a resize that does not grow the vector never looks at the fill value.
pub proof fn lemma_resized_shape<T>(s: Seq<T>, new_len: nat, value: T, other: T)
    ensures
        resized(s, new_len, value).len() == new_len,
        forall|i: int| 0 <= i < new_len && i < s.len() ==> #[trigger] resized(s, new_len, value)[i] == s[i],
        forall|i: int| s.len() <= i < new_len ==> #[trigger] resized(s, new_len, value)[i] == value,
        new_len <= s.len() ==> resized(s, new_len, value) == resized(s, new_len, other),
{
}

/// As many elements are kept as there are marks set.
pub proof fn lemma_kept_len<T>(s: Seq<T>, keep: Seq<bool>)
    ensures
        kept(s, keep).len() == rank(keep, s.len() as int),
    decreases s.len(),
{
    if s.len() > 0 {
        lemma_kept_len(s.drop_last(), keep);
    }
}

/// The number of marks set among the first `n` never exceeds `n` and never
/// shrinks as `n` grows; it grows past every set mark.
pub proof fn lemma_rank_monotonic(keep: Seq<bool>, a: int, b: int)
    requires
        0 <= a <= b,
    ensures
        rank(keep, a) <= rank(keep, b),
        rank(keep, b) <= b,
        a < b && keep[a] ==> rank(keep, a) < rank(keep, b),
    decreases b,
{
    if a < b {
        lemma_rank_monotonic(keep, a, b - 1);
    } else {
        if b > 0 {
            lemma_rank_monotonic(keep, 0, b - 1);
        }
    }
}

/// A kept element lands at the position given by the number of kept
/// elements before it. Together with `lemma_rank_monotonic` this says that
/// kept elements stay in their order.
pub proof fn lemma_kept_position<T>(s: Seq<T>, keep: Seq<bool>, i: int)
    requires
        0 <= i < s.len(),
        keep[i],
    ensures
        rank(keep, i) < kept(s, keep).len(),
        kept(s, keep)[rank(keep, i) as int] == s[i],
    decreases s.len(),
{
    lemma_kept_len(s, keep);
    lemma_kept_len(s.drop_last(), keep);
    if i < s.len() - 1 {
        lemma_kept_position(s.drop_last(), keep, i);
    }
}

/// Every element of the result was kept from the sequence: the result is
/// never longer than the sequence.
pub proof fn lemma_kept_no_longer<T>(s: Seq<T>, keep: Seq<bool>)
    ensures
        kept(s, keep).len() <= s.len(),
{
    lemma_kept_len(s, keep);
    lemma_rank_monotonic(keep, 0, s.len() as int);
}

/// When every decision is the value of one predicate, what is kept is the
/// filter of the sequence by that predicate.
pub proof fn lemma_kept_is_filter<T>(s: Seq<T>, keep: Seq<bool>, pred: spec_fn(T) -> bool)
    requires
        forall|i: int| 0 <= i < s.len() ==> keep[i] == pred(#[trigger] s[i]),
    ensures
        kept(s, keep) == s.filter(pred),
    decreases s.len(),
{
    reveal(Seq::filter);
    if s.len() > 0 {
        assert forall|i: int| 0 <= i < s.drop_last().len() implies keep[i] == pred(
            #[trigger] s.drop_last()[i],
        ) by {
            assert(s.drop_last()[i] == s[i]);
        }
        lemma_kept_is_filter(s.drop_last(), keep, pred);
    }
}

/// After collapsing, no element equals its predecessor.
pub proof fn lemma_collapsed_no_adjacent_equal<T: PartialEq>(s: Seq<T>, i: int)
    requires
        0 < i < collapsed(s).len(),
    ensures
        !collapsed(s)[i].eq_spec(&collapsed(s)[i - 1]),
    decreases s.len(),
{
    if s.len() > 1 {
        let front = collapsed(s.drop_last());
        lemma_collapsed_shape(s.drop_last());
        if i < front.len() {
            lemma_collapsed_no_adjacent_equal(s.drop_last(), i);
        }
    }
}

/// Collapsing keeps the first element and never lengthens the sequence.
pub proof fn lemma_collapsed_shape<T: PartialEq>(s: Seq<T>)
    ensures
        collapsed(s).len() <= s.len(),
        s.len() > 0 ==> collapsed(s).len() > 0 && collapsed(s)[0] == s[0],
    decreases s.len(),
{
    if s.len() > 1 {
        lemma_collapsed_shape(s.drop_last());
    }
}

/// Whether two vectors are equal is decided by their live elements alone:
/// vectors over buffers of different capacity that hold pairwise equal
/// elements in the same order are equal.
pub proof fn lemma_eq_ignores_capacity<'a, T: Copy + PartialEq>(a: &FixedVec<'a, T>, b: &FixedVec<'a, T>)
    requires
        a.wf(),
        b.wf(),
    ensures
        a.eq_spec(b) <==> elementwise_eq(a@, b@),
{
}

} // verus!
