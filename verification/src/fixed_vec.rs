//! The bounded vector and its operations.

use crate::laws::{lemma_kept_no_longer, lemma_kept_position, lemma_kept_reads_prefix, lemma_kept_step};
use crate::model::{
    appended, collapsed, elementwise_eq, extended, kept, position, pushed, resized, swap_removed,
};
use vstd::prelude::*;
use vstd::std_specs::cmp::PartialEqSpec;
use vstd::std_specs::iter::IteratorSpec;

verus! {

/// Why an operation that adds elements could not proceed.
#[derive(Debug, Clone, Copy, PartialEq, Eq, Structural)]
pub enum ErrorKind {
    /// The backing buffer has too few free slots.
    NoSpace,
}

/// `core::slice::IterMut`, the standard library's iterator over the slots of
/// a mutable slice. It is opaque here: what it will yield is spoken of
/// through `remaining`.
#[verifier::external_type_specification]
#[verifier::external_body]
#[verifier::reject_recursive_types(T)]
pub struct ExIterMut<'a, T: 'a>(core::slice::IterMut<'a, T>);

/// `<[T]>::iter_mut` of the standard library, which returns an iterator
/// that yields a mutable reference to each element of the slice, from the
/// first to the last. Claimed here: the iterator will yield as many
/// references as the slice has elements; the one at position `i` finds the
/// element at `i` and leaves behind what the slice holds at `i` when the
/// loan ends; and the slice is as long after the loan as before.
#[verifier::external_body]
fn slice_iter_mut<'a, T>(s: &'a mut [T]) -> (it: core::slice::IterMut<'a, T>)
    ensures
        final(s)@.len() == old(s)@.len(),
        it.remaining().len() == old(s)@.len(),
        forall|i: int| 0 <= i < old(s)@.len() ==> *(#[trigger] it.remaining()[i]) == old(s)@[i],
        forall|i: int| 0 <= i < old(s)@.len() ==> *final(#[trigger] it.remaining()[i]) == final(s)@[i],
{
    s.iter_mut()
}

/// A vector over a borrowed buffer. The first `len` slots of the buffer are
/// the live elements; the capacity is the length of the buffer and never
/// changes. The slots past the length hold whatever was left in them: only
/// reading and writing by position reach them.
///
/// Contracts speak of the live elements (the view, `@`), of the capacity,
/// and, where the slots past the length matter, of the whole buffer
/// (`storage`).
#[derive(Debug, Hash)]
pub struct FixedVec<'a, T: 'a + Copy> {
    memory: &'a mut [T],
    len: usize,
}

impl<'a, T: 'a + Copy> View for FixedVec<'a, T> {
    type V = Seq<T>;

    /// The live elements, in order.
    closed spec fn view(&self) -> Seq<T> {
        self.memory@.subrange(0, self.len as int)
    }
}

impl<'a, T: 'a + Copy> FixedVec<'a, T> {
    /// The length cursor lies within the backing buffer.
    pub closed spec fn wf(&self) -> bool {
        self.len <= self.memory@.len()
    }

    /// Every slot of the backing buffer, live or not, in order.
    pub closed spec fn storage(&self) -> Seq<T> {
        self.memory@
    }

    /// Whether the slots past the live elements hold what the slots at the
    /// same positions of `before` hold: the operation that led from `before`
    /// to this vector has not written past the new length.
    pub open spec fn tail_as_in(&self, before: Seq<T>) -> bool {
        self.storage().skip(self@.len() as int) == before.skip(self@.len() as int)
    }

    /// A well-formed vector never holds more elements than its capacity, and
    /// its elements are the leading slots of its buffer.
    pub proof fn lemma_live_prefix(&self)
        requires
            self.wf(),
        ensures
            self@.len() <= self.capacity(),
            self.storage().len() == self.capacity(),
            self@ == self.storage().take(self@.len() as int),
    {
    }

    /// The number of slots of the backing buffer.
    pub closed spec fn spec_capacity(&self) -> usize {
        self.memory.len()
    }

    /// Binds a vector to the whole of `memory`. It starts out empty, whatever
    /// the buffer holds.
    pub fn new(memory: &'a mut [T]) -> (v: Self)
        ensures
            v.wf(),
            v@ == Seq::<T>::empty(),
            v.capacity() == old(memory)@.len(),
            v.storage() == old(memory)@,
    {
        FixedVec { memory, len: 0 }
    }

    /// The number of slots of the backing buffer.
    #[verifier::when_used_as_spec(spec_capacity)]
    pub fn capacity(&self) -> (c: usize)
        ensures
            c == self.spec_capacity(),
    {
        self.memory.len()
    }

    /// The number of live elements.
    pub fn len(&self) -> (n: usize)
        requires
            self.wf(),
        ensures
            n == self@.len(),
            n <= self.capacity(),
    {
        self.len
    }

    /// Appends `value` if a slot is free. A full vector is left as it is, its
    /// buffer untouched.
    pub fn push(&mut self, value: T) -> (r: Result<(), ErrorKind>)
        requires
            old(self).wf(),
        ensures
            final(self).wf(),
            final(self).capacity() == old(self).capacity(),
            final(self)@ == pushed(old(self)@, old(self).capacity() as nat, value),
            old(self)@.len() < old(self).capacity() ==> r is Ok && final(self)@ == old(self)@.push(value)
                && final(self).storage() == old(self).storage().update(old(self)@.len() as int, value),
            old(self)@.len() >= old(self).capacity() ==> r == Err::<(), ErrorKind>(ErrorKind::NoSpace)
                && *final(self) == *old(self),
    {
        if self.memory.len() - self.len >= 1 {
            self.memory[self.len] = value;
            self.len += 1;
            assert(self@ =~= old(self)@.push(value));
            Ok(())
        } else {
            Err(ErrorKind::NoSpace)
        }
    }

    /// The number of free slots.
    pub fn available(&self) -> (n: usize)
        requires
            self.wf(),
        ensures
            n == self.capacity() - self@.len(),
    {
        self.memory.len() - self.len
    }

    /// Whether the vector holds no element.
    pub fn is_empty(&self) -> (b: bool)
        requires
            self.wf(),
        ensures
            b <==> self@.len() == 0,
    {
        self.len == 0
    }

    /// The live elements as a slice. Slots past the length are not part of it.
    pub fn as_slice(&self) -> (s: &[T])
        requires
            self.wf(),
        ensures
            s@ == self@,
    {
        &self.memory[0..self.len]
    }

    /// The live elements as a mutable slice. What the caller leaves in the
    /// slice is what the vector holds afterwards. A mutable slice cannot
    /// change its length; nothing here can state that, hence the condition on
    /// the length below.
    pub fn as_mut_slice(&mut self) -> (s: &mut [T])
        requires
            old(self).wf(),
        ensures
            s@ == old(self)@,
            final(s)@.len() == s@.len() ==> final(self).wf() && final(self)@ == final(s)@
                && final(self).capacity() == old(self).capacity()
                && final(self).tail_as_in(old(self).storage()),
    {
        let (live, rest) = self.memory.split_at_mut(self.len);
        proof {
            assert(old(self).memory@.skip(self.len as int) =~= rest@);
            assert(final(live)@.len() == self.len ==> (final(live)@ + rest@).skip(self.len as int) =~= rest@);
        }
        live
    }

    /// Removes the last element and returns it, or returns `None` when the
    /// vector is empty.
    pub fn pop(&mut self) -> (r: Option<T>)
        requires
            old(self).wf(),
        ensures
            final(self).wf(),
            final(self).capacity() == old(self).capacity(),
            old(self)@.len() > 0 ==> r == Some(old(self)@.last())
                && final(self)@ == old(self)@.drop_last(),
            final(self).storage() == old(self).storage(),
            old(self)@.len() == 0 ==> r is None && *final(self) == *old(self),
    {
        if self.len > 0 {
            self.len -= 1;
            assert(self@ =~= old(self)@.drop_last());
            Some(self.memory[self.len])
        } else {
            None
        }
    }

    /// Drops every element. The slots keep what they held; they are merely no
    /// longer live.
    pub fn clear(&mut self)
        requires
            old(self).wf(),
        ensures
            final(self).wf(),
            final(self).capacity() == old(self).capacity(),
            final(self)@ == Seq::<T>::empty(),
            final(self).storage() == old(self).storage(),
    {
        self.len = 0;
        assert(self@ =~= Seq::<T>::empty());
    }

    /// The element at `index`, or `None` when `index` is not below the
    /// length.
    pub fn get(&self, index: usize) -> (r: Option<&T>)
        requires
            self.wf(),
        ensures
            index < self@.len() ==> r == Some(&self@[index as int]),
            index >= self@.len() ==> r is None,
    {
        if index < self.len {
            Some(&self.memory[index])
        } else {
            None
        }
    }

    /// The slot at `index` for writing, or `None` when `index` is not below
    /// the length.
    pub fn get_mut(&mut self, index: usize) -> (r: Option<&mut T>)
        requires
            old(self).wf(),
        ensures
            final(self).wf(),
            final(self).capacity() == old(self).capacity(),
            index < old(self)@.len() ==> r is Some && *r.unwrap() == old(self)@[index as int]
                && final(self)@ == old(self)@.update(index as int, *final(r.unwrap()))
                && final(self).storage() == old(self).storage().update(index as int, *final(r.unwrap())),
            index >= old(self)@.len() ==> r is None && *final(self) == *old(self),
    {
        if index < self.len {
            Some(&mut self.memory[index])
        } else {
            None
        }
    }

    /// The element at `index`, for a caller that knows the index to be live.
    pub fn get_unchecked(&self, index: usize) -> (r: &T)
        requires
            self.wf(),
            index < self@.len(),
        ensures
            *r == self@[index as int],
    {
        &self.memory[index]
    }

    /// The slot at `index`, for a caller that knows the index to be live.
    pub fn get_unchecked_mut(&mut self, index: usize) -> (r: &mut T)
        requires
            old(self).wf(),
            index < old(self)@.len(),
        ensures
            final(self).wf(),
            final(self).capacity() == old(self).capacity(),
            *r == old(self)@[index as int],
            final(self)@ == old(self)@.update(index as int, *final(r)),
            final(self).storage() == old(self).storage().update(index as int, *final(r)),
    {
        &mut self.memory[index]
    }

    /// Write access to a slot of the backing buffer. As with reading by
    /// position, the bound is the capacity: writing past the live elements
    /// changes none of them.
    pub fn index_mut(&mut self, index: usize) -> (slot: &mut T)
        requires
            old(self).wf(),
            index < old(self).capacity(),
        ensures
            final(self).wf(),
            final(self).capacity() == old(self).capacity(),
            *slot == old(self).storage()[index as int],
            final(self).storage() == old(self).storage().update(index as int, *final(slot)),
            index < old(self)@.len() ==> *slot == old(self)@[index as int]
                && final(self)@ == old(self)@.update(index as int, *final(slot)),
            index >= old(self)@.len() ==> final(self)@ == old(self)@,
    {
        &mut self.memory[index]
    }

    /// An iterator over the live elements, first to last.
    pub fn iter(&self) -> (it: core::slice::Iter<'_, T>)
        requires
            self.wf(),
        ensures
            vstd::std_specs::slice::into_iter_elts(it) == self@,
            it.remaining() == self@.as_ref(),
            it.decrease() is Some,
            it.initial_value_relation(&it),
    {
        let (live, _) = self.memory.split_at(self.len);
        live.iter()
    }

    /// An iterator that hands out each live slot for writing, first to last:
    /// it will yield one reference for each live element, the one at
    /// position `i` finds the element at `i`, and what is left behind it is
    /// the element at `i` afterwards. Whatever is written through it, the
    /// vector keeps its length, and no slot past the length is reached.
    pub fn iter_mut(&mut self) -> (it: core::slice::IterMut<'_, T>)
        requires
            old(self).wf(),
        ensures
            final(self).wf(),
            final(self).capacity() == old(self).capacity(),
            final(self)@.len() == old(self)@.len(),
            final(self).tail_as_in(old(self).storage()),
            it.remaining().len() == old(self)@.len(),
            forall|i: int| 0 <= i < old(self)@.len() ==> *(#[trigger] it.remaining()[i]) == old(self)@[i],
            forall|i: int| 0 <= i < old(self)@.len() ==> *final(#[trigger] it.remaining()[i]) == final(self)@[i],
    {
        let (live, rest) = self.memory.split_at_mut(self.len);
        proof {
            assert(old(self).memory@.skip(self.len as int) =~= rest@);
            assert(final(live)@.len() == self.len ==> (final(live)@ + rest@).skip(self.len as int) =~= rest@);
        }
        slice_iter_mut(live)
    }

    /// Appends the items that `items` yields until it ends or the buffer is
    /// full, whichever comes first. No item is drawn once the buffer is full,
    /// and a longer source is cut short without an error. What the source
    /// will yield is known only of a source that keeps the iterator laws; of
    /// any other, the elements already held are known to stay in front.
    pub fn extend<I>(&mut self, items: I)
        where I: Iterator<Item = T>
        requires
            old(self).wf(),
        ensures
            final(self).wf(),
            final(self).capacity() == old(self).capacity(),
            old(self)@.len() <= final(self)@.len(),
            final(self)@.take(old(self)@.len() as int) == old(self)@,
            final(self).tail_as_in(old(self).storage()),
            items.obeys_prophetic_iter_laws() ==> final(self)@ == extended(
                old(self)@,
                old(self).capacity() as nat,
                items.remaining(),
            ),
    {
        let mut items = items;
        assert(self@.take(self@.len() as int) =~= self@);
        let ghost all = items.remaining();
        let ghost lawful = items.obeys_prophetic_iter_laws();
        let ghost mut taken: int = 0;
        let mut exhausted = false;
        while !exhausted && self.len < self.memory.len()
            invariant
                self.len <= self.memory@.len(),
                self.memory@.len() == old(self).memory@.len(),
                self.len == old(self).len + taken,
                0 <= taken,
                old(self).wf(),
                self@.take(old(self)@.len() as int) == old(self)@,
                forall|j: int| self.len <= j < self.memory@.len() ==> self.memory@[j] == old(self).memory@[j],
                items.obeys_prophetic_iter_laws() == lawful,
                items.obeys_prophetic_iter_laws() ==> taken <= all.len(),
                items.obeys_prophetic_iter_laws() && exhausted ==> taken == all.len(),
                items.obeys_prophetic_iter_laws() ==> items.remaining() == all.skip(taken),
                items.obeys_prophetic_iter_laws() ==> self@ == old(self)@ + all.take(taken),
            decreases self.memory@.len() - self.len + if exhausted { 0int } else { 1int },
        {
            match items.next() {
                Some(item) => {
                    let ghost prev = self@;
                    self.memory[self.len] = item;
                    self.len += 1;
                    proof {
                        assert(self@ =~= prev.push(item));
                        assert(self@.take(old(self)@.len() as int) =~= prev.take(old(self)@.len() as int));
                        if items.obeys_prophetic_iter_laws() {
                            assert(all.skip(taken).drop_first() =~= all.skip(taken + 1));
                            assert(all.take(taken + 1) =~= all.take(taken).push(item));
                        }
                        taken = taken + 1;
                    }
                },
                None => {
                    exhausted = true;
                },
            }
        }
        assert(self.memory@.skip(self.len as int) =~= old(self).memory@.skip(self.len as int));
    }

    /// Lets `f` rewrite each live element in place, first to last. For each
    /// position there is one call of `f` that found the old element in the
    /// slot and left the new one there.
    pub fn map_in_place<F>(&mut self, f: F)
        where F: Fn(&mut T)
        requires
            old(self).wf(),
            forall|x: &mut T| old(self)@.contains(*x) ==> #[trigger] call_requires(f, (x,)),
        ensures
            final(self).wf(),
            final(self).capacity() == old(self).capacity(),
            final(self)@.len() == old(self)@.len(),
            final(self).tail_as_in(old(self).storage()),
            forall|i: int| 0 <= #[trigger] position(i) < old(self)@.len() ==> exists|x: &mut T|
                *x == old(self)@[i] && *final(x) == final(self)@[i] && #[trigger] call_ensures(f, (x,), ()),
    {
        let ghost start = self@;
        let mut i: usize = 0;
        while i < self.len
            invariant
                start == old(self)@,
                i <= self.len,
                self.len == old(self).len,
                self.len <= self.memory@.len(),
                self.memory@.len() == old(self).memory@.len(),
                forall|x: &mut T| start.contains(*x) ==> #[trigger] call_requires(f, (x,)),
                forall|j: int| i <= j < self.len ==> self.memory@[j] == start[j],
                forall|j: int| self.len <= j < self.memory@.len() ==> self.memory@[j] == old(self).memory@[j],
                forall|j: int| 0 <= #[trigger] position(j) < i ==> exists|x: &mut T|
                    *x == start[j] && *final(x) == self.memory@[j] && #[trigger] call_ensures(f, (x,), ()),
            decreases self.len - i,
        {
            assert(start.contains(self.memory@[i as int])) by {
                assert(start[i as int] == self.memory@[i as int]);
            }
            f(&mut self.memory[i]);
            i += 1;
        }
        assert(self.memory@.skip(self.len as int) =~= old(self).memory@.skip(self.len as int));
    }

    /// Puts `element` at `index` and moves the elements from there on one
    /// slot to the right. Needs one free slot; a full vector is left as it
    /// is.
    pub fn insert(&mut self, index: usize, element: T) -> (r: Result<(), ErrorKind>)
        requires
            old(self).wf(),
            index <= old(self)@.len(),
        ensures
            final(self).wf(),
            final(self).capacity() == old(self).capacity(),
            old(self)@.len() < old(self).capacity() ==> r is Ok
                && final(self)@ == old(self)@.insert(index as int, element),
            final(self).tail_as_in(old(self).storage()),
            old(self)@.len() >= old(self).capacity() ==> r == Err::<(), ErrorKind>(ErrorKind::NoSpace)
                && *final(self) == *old(self),
    {
        if index == self.len {
            let r = self.push(element);
            assert(old(self)@.push(element) =~= old(self)@.insert(index as int, element));
            assert(self.memory@.skip(self.len as int) =~= old(self).memory@.skip(self.len as int));
            r
        } else if self.memory.len() - self.len >= 1 {
            let ghost before = self.memory@;
            let mut i: usize = self.len;
            self.len += 1;
            while i > index
                invariant
                    index <= i < self.len,
                    self.len == old(self).len + 1,
                    self.len <= self.memory@.len(),
                    self.memory@.len() == before.len(),
                    before == old(self).memory@,
                    forall|j: int| 0 <= j < i ==> self.memory@[j] == before[j],
                    forall|j: int| i < j < self.len ==> self.memory@[j] == before[j - 1],
                    forall|j: int| self.len <= j < before.len() ==> self.memory@[j] == before[j],
                decreases i,
            {
                let moved = self.memory[i - 1];
                self.memory[i] = moved;
                i -= 1;
            }
            self.memory[index] = element;
            assert(self@ =~= old(self)@.insert(index as int, element));
            assert(self.memory@.skip(self.len as int) =~= old(self).memory@.skip(self.len as int));
            Ok(())
        } else {
            Err(ErrorKind::NoSpace)
        }
    }

    /// Takes out the element at `index` and moves the elements behind it one
    /// slot to the left.
    pub fn remove(&mut self, index: usize) -> (removed: T)
        requires
            old(self).wf(),
            index < old(self)@.len(),
        ensures
            final(self).wf(),
            final(self).capacity() == old(self).capacity(),
            removed == old(self)@[index as int],
            final(self)@ == old(self)@.remove(index as int),
            final(self).tail_as_in(old(self).storage()),
    {
        let removed = self.memory[index];
        let ghost before = self.memory@;
        self.len -= 1;
        let mut i: usize = index;
        while i < self.len
            invariant
                index <= i <= self.len,
                self.len + 1 == old(self).len,
                old(self).len <= self.memory@.len(),
                self.memory@.len() == before.len(),
                before == old(self).memory@,
                forall|j: int| 0 <= j < index ==> self.memory@[j] == before[j],
                forall|j: int| index <= j < i ==> self.memory@[j] == before[j + 1],
                forall|j: int| i <= j < before.len() ==> self.memory@[j] == before[j],
            decreases self.len - i,
        {
            let moved = self.memory[i + 1];
            self.memory[i] = moved;
            i += 1;
        }
        assert(self@ =~= old(self)@.remove(index as int));
        assert(self.memory@.skip(self.len as int) =~= old(self).memory@.skip(self.len as int));
        removed
    }

    /// Appends all of `other`, or nothing at all when it does not fit into the
    /// free slots: the vector and its buffer are then exactly what they were.
    pub fn push_all(&mut self, other: &[T]) -> (r: Result<(), ErrorKind>)
        requires
            old(self).wf(),
        ensures
            final(self).wf(),
            final(self).capacity() == old(self).capacity(),
            final(self)@ == appended(old(self)@, old(self).capacity() as nat, other@),
            final(self).tail_as_in(old(self).storage()),
            old(self)@.len() + other@.len() <= old(self).capacity() ==> r is Ok
                && final(self)@ == old(self)@ + other@,
            old(self)@.len() + other@.len() > old(self).capacity() ==> r == Err::<(), ErrorKind>(
                ErrorKind::NoSpace,
            ) && *final(self) == *old(self),
    {
        if other.len() > self.memory.len() - self.len {
            Err(ErrorKind::NoSpace)
        } else {
            let mut i: usize = 0;
            while i < other.len()
                invariant
                    i <= other@.len(),
                    self.len == old(self).len + i,
                    old(self).len + other@.len() <= self.memory@.len(),
                    self.memory@.len() == old(self).memory@.len(),
                    self@ == old(self)@ + other@.take(i as int),
                    forall|j: int| self.len <= j < self.memory@.len() ==> self.memory@[j] == old(self).memory@[j],
                decreases other@.len() - i,
            {
                let ghost prev = self@;
                self.memory[self.len] = other[i];
                self.len += 1;
                i += 1;
                assert(self@ =~= prev.push(other@[i - 1]));
                assert(other@.take(i as int) =~= other@.take(i - 1).push(other@[i - 1]));
                assert(self@ =~= old(self)@ + other@.take(i as int));
            }
            assert(other@.take(i as int) =~= other@);
            assert(self.memory@.skip(self.len as int) =~= old(self).memory@.skip(self.len as int));
            Ok(())
        }
    }

    /// Takes out the element at `index` and puts the last element in its
    /// place. Constant time; the order of the elements is not preserved.
    pub fn swap_remove(&mut self, index: usize) -> (removed: T)
        requires
            old(self).wf(),
            index < old(self)@.len(),
        ensures
            final(self).wf(),
            final(self).capacity() == old(self).capacity(),
            removed == old(self)@[index as int],
            final(self)@ == swap_removed(old(self)@, index as int),
            final(self).storage() == old(self).storage().update(index as int, old(self)@.last()),
    {
        if self.len == 1 {
            let removed = self.remove(0);
            assert(self@ =~= swap_removed(old(self)@, index as int));
            assert(self.memory@ =~= old(self).memory@.skip(0));
            assert(self.memory@ =~= old(self).memory@.update(index as int, old(self)@.last()));
            removed
        } else {
            let removed = self.memory[index];
            let last = self.pop().unwrap();
            let ghost shorter = self@;
            self.memory[index] = last;
            assert(shorter == old(self)@.drop_last());
            assert(self@.len() == shorter.len());
            assert forall|j: int| 0 <= j < self@.len() implies self@[j] == swap_removed(
                old(self)@,
                index as int,
            )[j] by {
                if j != index {
                    assert(self@[j] == shorter[j]);
                }
            }
            assert(self@ =~= swap_removed(old(self)@, index as int));
            removed
        }
    }

    /// Sets the length to `new_len`: cuts the vector short, or fills the newly
    /// live slots with copies of `value`.
    pub fn resize(&mut self, new_len: usize, value: T)
        requires
            old(self).wf(),
            new_len <= old(self).capacity(),
        ensures
            final(self).wf(),
            final(self).capacity() == old(self).capacity(),
            final(self)@ == resized(old(self)@, new_len as nat, value),
            new_len <= old(self)@.len() ==> final(self).storage() == old(self).storage(),
            final(self).tail_as_in(old(self).storage()),
    {
        if new_len <= self.len {
            self.len = new_len;
            assert(self@ =~= resized(old(self)@, new_len as nat, value));
        } else {
            while self.len < new_len
                invariant
                    old(self).len <= self.len <= new_len,
                    new_len <= self.memory@.len(),
                    self.memory@.len() == old(self).memory@.len(),
                    self@ == old(self)@ + Seq::new((self.len - old(self).len) as nat, |i: int| value),
                    forall|j: int| self.len <= j < self.memory@.len() ==> self.memory@[j] == old(self).memory@[j],
                decreases new_len - self.len,
            {
                let ghost prev = self@;
                self.memory[self.len] = value;
                self.len += 1;
                assert(self@ =~= prev.push(value));
                assert(self@ =~= old(self)@ + Seq::new((self.len - old(self).len) as nat, |i: int| value));
            }
            assert(self.memory@.skip(self.len as int) =~= old(self).memory@.skip(self.len as int));
        }
    }

    /// Keeps the elements for which `f` answers `true`, in their order, and
    /// drops the others. `f` is asked once about each element, first to
    /// last; `keep` below is the sequence of its answers.
    pub fn retain<F>(&mut self, f: F)
        where F: Fn(&T) -> bool
        requires
            old(self).wf(),
            forall|i: int| 0 <= i < old(self)@.len() ==> call_requires(f, (&#[trigger] old(self)@[i],)),
        ensures
            final(self).wf(),
            final(self).capacity() == old(self).capacity(),
            final(self)@.len() <= old(self)@.len(),
            final(self).tail_as_in(old(self).storage()),
            (exists|keep: Seq<bool>| {
                &&& keep.len() == old(self)@.len()
                &&& forall|i: int| 0 <= i < keep.len() ==> call_ensures(f, (&old(self)@[i],), #[trigger] keep[i])
                &&& final(self)@ == kept(old(self)@, keep)
            }),
    {
        let ghost start = self@;
        let ghost mut keep: Seq<bool> = Seq::empty();
        let mut head: usize = 0;
        let mut tail: usize = 0;
        while head < self.len
            invariant
                start == old(self)@,
                tail <= head <= self.len,
                self.len == old(self).len,
                self.len <= self.memory@.len(),
                self.memory@.len() == old(self).memory@.len(),
                keep.len() == head,
                forall|i: int| 0 <= i < start.len() ==> call_requires(f, (&#[trigger] start[i],)),
                forall|i: int| 0 <= i < head ==> call_ensures(f, (&start[i],), #[trigger] keep[i]),
                forall|j: int| head <= j < self.len ==> self.memory@[j] == start[j],
                forall|j: int| tail <= j < self.memory@.len() ==> self.memory@[j] == old(self).memory@[j],
                self.memory@.subrange(0, tail as int) == kept(start.take(head as int), keep),
            decreases self.len - head,
        {
            let ghost front = self.memory@.subrange(0, tail as int);
            let ghost marks = keep;
            let item = self.memory[head];
            assert(item == start[head as int]);
            let wanted = f(&item);
            if wanted {
                self.memory[tail] = item;
                tail += 1;
            }
            head += 1;
            proof {
                keep = marks.push(wanted);
                lemma_kept_step(start, keep, head - 1);
                lemma_kept_reads_prefix(start.take(head - 1), marks, keep);
                assert(self.memory@.subrange(0, tail as int) =~= if wanted {
                    front.push(item)
                } else {
                    front
                });
            }
        }
        self.len = tail;
        assert(self.memory@.skip(self.len as int) =~= old(self).memory@.skip(self.len as int));
        proof {
            assert(start.take(head as int) =~= start);
            lemma_kept_no_longer(start, keep);
        }
    }
}

impl<'a, T: 'a + Copy + PartialEq> FixedVec<'a, T> {
    /// Collapses each run of consecutive equal elements into its first
    /// element. Equal elements that are not neighbours both stay. Each
    /// element is compared with the one kept most recently; `keep` below
    /// marks the elements that differed from it.
    pub fn dedup(&mut self)
        requires
            old(self).wf(),
        ensures
            final(self).wf(),
            final(self).capacity() == old(self).capacity(),
            T::obeys_eq_spec() ==> final(self)@ == collapsed(old(self)@),
            final(self)@.len() <= old(self)@.len(),
            old(self)@.len() > 0 ==> final(self)@.len() > 0 && final(self)@[0] == old(self)@[0],
            final(self).tail_as_in(old(self).storage()),
            (exists|keep: Seq<bool>| {
                &&& keep.len() == old(self)@.len()
                &&& keep.len() > 0 ==> keep[0]
                &&& final(self)@ == kept(old(self)@, keep)
            }),
    {
        let ghost start = self@;
        if self.len <= 1 {
            proof {
                let keep = Seq::new(start.len(), |i: int| true);
                if start.len() == 1 {
                    assert(kept(start.drop_last(), keep) =~= Seq::<T>::empty());
                    assert(kept(start, keep) =~= start);
                }
                assert(keep.len() == start.len() && (keep.len() > 0 ==> keep[0]) && self@ == kept(
                    start,
                    keep,
                ));
            }
            return ;
        }
        let ghost mut keep: Seq<bool> = seq![true];
        let mut head: usize = 1;
        let mut tail: usize = 0;
        proof {
            assert(kept(start.take(1).drop_last(), keep) =~= Seq::<T>::empty());
            assert(self.memory@.subrange(0, 1) =~= kept(start.take(1), keep));
            assert(start.take(1) =~= collapsed(start.take(1)));
        }
        while head < self.len
            invariant
                start == old(self)@,
                tail < head <= self.len,
                self.len == old(self).len,
                self.len <= self.memory@.len(),
                self.memory@.len() == old(self).memory@.len(),
                keep.len() == head,
                keep[0],
                forall|j: int| head <= j < self.len ==> self.memory@[j] == start[j],
                forall|j: int| tail < j < self.memory@.len() ==> self.memory@[j] == old(self).memory@[j],
                self.memory@.subrange(0, tail + 1) == kept(start.take(head as int), keep),
                T::obeys_eq_spec() ==> self.memory@.subrange(0, tail + 1) == collapsed(start.take(head as int)),
            decreases self.len - head,
        {
            let ghost front = self.memory@.subrange(0, tail + 1);
            let ghost marks = keep;
            let item = self.memory[head];
            let recent = self.memory[tail];
            assert(item == start[head as int]);
            assert(recent == front.last());
            let differs = item != recent;
            if differs {
                tail += 1;
                self.memory[tail] = item;
            }
            head += 1;
            proof {
                keep = marks.push(differs);
                lemma_kept_step(start, keep, head - 1);
                lemma_kept_reads_prefix(start.take(head - 1), marks, keep);
                assert(self.memory@.subrange(0, tail + 1) =~= if differs {
                    front.push(item)
                } else {
                    front
                });
                assert(start.take(head as int).drop_last() =~= start.take(head - 1));
            }
        }
        self.len = tail + 1;
        assert(self.memory@.skip(self.len as int) =~= old(self).memory@.skip(self.len as int));
        proof {
            assert(start.take(head as int) =~= start);
            lemma_kept_no_longer(start, keep);
            lemma_kept_position(start, keep, 0);
        }
    }
}

impl<'a, T: 'a + Copy> core::ops::Index<usize> for FixedVec<'a, T> {
    type Output = T;

    /// Reads a slot of the backing buffer. The bound is the capacity, not the
    /// length: a slot past the live elements holds whatever was left there.
    fn index(&self, index: usize) -> (slot: &T)
        ensures
            *slot == self.storage()[index as int],
            index < self@.len() ==> *slot == self@[index as int],
    {
        &self.memory[index]
    }
}

impl<'a, T: 'a + Copy> vstd::std_specs::core::IndexSpecImpl<usize> for FixedVec<'a, T> {
    open spec fn index_req(&self, index: &usize) -> bool {
        self.wf() && *index < self.capacity()
    }
}

impl<'a, T: 'a + Copy + PartialEq> PartialEq for FixedVec<'a, T> {
    /// Compares the live elements pairwise. The walk stops where either
    /// buffer ends, so no slot outside a buffer is ever read.
    fn eq(&self, other: &FixedVec<'a, T>) -> (r: bool) {
        if self.len != other.len {
            return false;
        }
        let mut i: usize = 0;
        while i < self.len && i < self.memory.len() && i < other.memory.len()
            invariant
                self.len == other.len,
                i <= self.len,
                i <= self.memory@.len(),
                i <= other.memory@.len(),
                T::obeys_eq_spec() ==> forall|j: int| 0 <= j < i ==> (#[trigger] self.memory@[j]).eq_spec(&other.memory@[j]),
            decreases self.len - i,
        {
            if self.memory[i] != other.memory[i] {
                assert(T::obeys_eq_spec() && self.wf() && other.wf() ==> !self@[i as int].eq_spec(
                    &other@[i as int],
                ));
                return false;
            }
            i += 1;
        }
        i == self.len
    }
}

impl<'a, T: 'a + Copy + PartialEq> vstd::std_specs::cmp::PartialEqSpecImpl for FixedVec<'a, T> {
    open spec fn obeys_eq_spec() -> bool {
        T::obeys_eq_spec()
    }

    /// Equal lengths and pairwise equal live elements; the capacities play
    /// no part.
    open spec fn eq_spec(&self, other: &FixedVec<'a, T>) -> bool {
        self.wf() && other.wf() && elementwise_eq(self@, other@)
    }
}

} // verus!
