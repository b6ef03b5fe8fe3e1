//! Sequence-level descriptions of what the vector's operations compute.

use vstd::prelude::*;
use vstd::std_specs::cmp::PartialEqSpec;

verus! {

/// A push onto a vector holding `s` in a buffer of `capacity` slots: the
/// value is appended when a slot is free, and `s` is left alone otherwise.
pub open spec fn pushed<T>(s: Seq<T>, capacity: nat, value: T) -> Seq<T> {
    if s.len() < capacity {
        s.push(value)
    } else {
        s
    }
}

/// The values of `values` pushed one after another, first to last.
pub open spec fn pushed_each<T>(s: Seq<T>, capacity: nat, values: Seq<T>) -> Seq<T>
    decreases values.len(),
{
    if values.len() == 0 {
        s
    } else {
        pushed(pushed_each(s, capacity, values.drop_last()), capacity, values.last())
    }
}

/// A bulk append: all of `values` when they fit into the free slots, nothing
/// otherwise.
pub open spec fn appended<T>(s: Seq<T>, capacity: nat, values: Seq<T>) -> Seq<T> {
    if s.len() + values.len() <= capacity {
        s + values
    } else {
        s
    }
}

/// An append that stops when the vector is full: as many of `items`, from
/// the front, as there are free slots.
pub open spec fn extended<T>(s: Seq<T>, capacity: nat, items: Seq<T>) -> Seq<T> {
    if s.len() + items.len() <= capacity {
        s + items
    } else {
        s + items.take(capacity - s.len())
    }
}

/// Removal in constant time: the last element takes the place of the one at
/// `index`.
pub open spec fn swap_removed<T>(s: Seq<T>, index: int) -> Seq<T>
    recommends
        0 <= index < s.len(),
{
    s.update(index, s.last()).drop_last()
}

/// `s` cut down to `new_len` elements, or padded with copies of `value` up
/// to `new_len` elements.
pub open spec fn resized<T>(s: Seq<T>, new_len: nat, value: T) -> Seq<T> {
    if new_len <= s.len() {
        s.take(new_len as int)
    } else {
        s + Seq::new((new_len - s.len()) as nat, |i: int| value)
    }
}

/// The elements of `s` whose position is marked in `keep`, in their
/// order in `s`. Only the first `s.len()` marks are read.
pub open spec fn kept<T>(s: Seq<T>, keep: Seq<bool>) -> Seq<T>
    decreases s.len(),
{
    if s.len() == 0 {
        Seq::empty()
    } else if keep[s.len() - 1] {
        kept(s.drop_last(), keep).push(s.last())
    } else {
        kept(s.drop_last(), keep)
    }
}

/// How many of the first `n` marks of `keep` are set.
pub open spec fn rank(keep: Seq<bool>, n: int) -> nat
    decreases n,
{
    if n <= 0 {
        0
    } else if keep[n - 1] {
        rank(keep, n - 1) + 1
    } else {
        rank(keep, n - 1)
    }
}

/// `s` with every run of consecutive equal elements collapsed: an element
/// stays unless it equals the element kept most recently.
pub open spec fn collapsed<T: PartialEq>(s: Seq<T>) -> Seq<T>
    decreases s.len(),
{
    if s.len() <= 1 {
        s
    } else {
        let front = collapsed(s.drop_last());
        if s.last().eq_spec(&front.last()) {
            front
        } else {
            front.push(s.last())
        }
    }
}

/// A position in a sequence. It is the identity; a quantifier over positions
/// that has nothing else to be matched on is matched on it.
pub open spec fn position(i: int) -> int {
    i
}

/// Pairwise equality of two sequences under the element type's `==`.
pub open spec fn elementwise_eq<T: PartialEq>(a: Seq<T>, b: Seq<T>) -> bool {
    a.len() == b.len() && forall|i: int| 0 <= i < a.len() ==> (#[trigger] a[i]).eq_spec(&b[i])
}

} // verus!
