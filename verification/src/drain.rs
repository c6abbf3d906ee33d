//! Draining: a join that takes the values out of a storage.

use crate::{Entity, Join, Joinable, Joined, Maybe, SparseStorage, Storage};
use std::marker::PhantomData;
use vstd::prelude::*;

verus! {

impl<T> Storage<T> {
    /// Removes all components of this storage and hands them to the drain,
    /// which yields them in ascending identifier order. The storage is empty
    /// from this call on, whether the drain is walked to its end or let go
    /// before; its slots stay. It stays borrowed for as long as the drain
    /// lives.
    pub fn drain(&mut self) -> (d: Drain<'_, T>)
        ensures
            d.pending().slots() == old(self).slots(),
            d.position() == 0,
            final(self).slots() == Seq::new(old(self).slots().len(), |i: int| None::<T>),
            forall|p: int| (#[trigger] final(self).at(p)) is None,
    {
        Drain(self.take(), 0, PhantomData)
    }
}

/// `slots` with the slots in `lo..hi` made absent.
pub open spec fn taken_out<T>(slots: Seq<Option<T>>, lo: int, hi: int) -> Seq<Option<T>> {
    Seq::new(
        slots.len(),
        |i: int|
            if lo <= i < hi {
                None
            } else {
                slots[i]
            },
    )
}

/// The values drained from a dense storage, and the position reached in
/// them. A pull takes the value at its position out for good, and removes
/// what it passes over on the way. The drain keeps the storage borrowed:
/// nothing can be put into it while drained values are still on their way
/// out.
pub struct Drain<'a, T>(Storage<T>, usize, PhantomData<&'a mut Storage<T>>);

impl<'a, T> Drain<'a, T> {
    /// The values that are still to be yielded, under their identifiers.
    pub closed spec fn pending(&self) -> Storage<T> {
        self.0
    }

    /// The position the drain has reached.
    pub closed spec fn position(&self) -> int {
        self.1 as int
    }
}

impl<'a, T> Join for Drain<'a, T> {
    type Item = T;

    type Value = T;

    open spec fn wf(&self) -> bool {
        0 <= self.position() <= usize::MAX
    }

    open spec fn cursor(&self) -> int {
        self.position()
    }

    open spec fn value_at(&self, p: int) -> Option<T> {
        self.pending().at(p)
    }

    open spec fn may_ask(&self, curr: int) -> bool {
        true
    }

    open spec fn skip_from(&self, curr: int) -> int {
        crate::storage::run(self.pending().slots(), curr, false)
    }

    open spec fn can_pull(&self, n: int) -> bool {
        self.cursor() + n < usize::MAX
    }

    proof fn lemma_in_reach(&self, n: int) {
    }

    open spec fn value_of(item: T) -> T {
        item
    }

    /// The length of the run of absent slots at `curr`. The drain moves on
    /// to `curr`; the values it has in store stay as they are.
    fn may_skip(&mut self, curr: usize) -> (hint: usize)
        ensures
            final(self).pending() == old(self).pending(),
    {
        self.1 = curr;
        self.0.gap_from(curr)
    }

    /// Takes the value at the cursor out.
    fn next(&mut self) -> (item: Option<T>)
        ensures
            final(self).pending().slots() == taken_out(
                old(self).pending().slots(),
                old(self).position(),
                old(self).position() + 1,
            ),
    {
        let item = self.0.remove(Entity(self.1));
        self.1 += 1;
        proof {
            assert(self.0.slots() =~= taken_out(
                old(self).0.slots(),
                old(self).1 as int,
                old(self).1 + 1,
            ));
        }
        item
    }

    /// Takes the value `n` positions after the cursor out, and removes the
    /// values at the positions before it.
    fn nth(&mut self, n: usize) -> (item: Option<T>)
        ensures
            final(self).pending().slots() == taken_out(
                old(self).pending().slots(),
                old(self).position(),
                old(self).position() + n + 1,
            ),
    {
        for i in 0..n
            invariant
                self.1 == old(self).1 + i,
                old(self).1 + n < usize::MAX,
                self.0.slots() == taken_out(old(self).0.slots(), old(self).1 as int, self.1 as int),
        {
            self.0.remove(Entity(self.1));
            self.1 += 1;
            assert(self.0.slots() =~= taken_out(
                old(self).0.slots(),
                old(self).1 as int,
                self.1 as int,
            ));
        }
        let item = self.next();
        proof {
            assert(self.0.slots() =~= taken_out(
                old(self).0.slots(),
                old(self).1 as int,
                old(self).1 + n + 1,
            ));
        }
        item
    }
}

impl<'a, T> Joinable for Drain<'a, T> {
    type Joined = Drain<'a, T>;

    type Item = T;

    open spec fn ready(self) -> bool {
        self.position() == 0
    }

    open spec fn bound(self) -> int {
        self.pending().slots().len() as int
    }

    open spec fn source_at(self, p: int) -> Option<T> {
        self.pending().at(p)
    }

    fn join(self) -> (j: Joined<Drain<'a, T>>)
        ensures
            j.iter == self,
    {
        let len = self.0.slot_count();
        Joined::new(self, len)
    }

    fn maybe(self) -> (m: Maybe<Drain<'a, T>>) {
        Maybe::new(self.join().iter)
    }
}

impl<T> SparseStorage<T> {
    /// Removes all components of this storage and hands them to the drain,
    /// which yields them in ascending identifier order. The storage is empty
    /// from this call on, whether the drain is walked to its end or let go
    /// before. It stays borrowed for as long as the drain lives.
    pub fn drain(&mut self) -> (d: SparseDrain<'_, T>)
        ensures
            d.pending().entries() == old(self).entries(),
            d.position() == 0,
            final(self).entries() == Map::<usize, T>::empty(),
            forall|p: int| (#[trigger] final(self).at(p)) is None,
    {
        SparseDrain { inner: self.take(), position: 0, source: PhantomData }
    }
}

/// The values drained from a sparse storage, and the position reached in
/// them. A pull takes the value at its position out for good. The drain
/// keeps the storage borrowed: nothing can be put into it while drained
/// values are still on their way out.
pub struct SparseDrain<'a, T> {
    inner: SparseStorage<T>,
    position: usize,
    source: PhantomData<&'a mut SparseStorage<T>>,
}

impl<'a, T> SparseDrain<'a, T> {
    /// The values that are still to be yielded, under their identifiers.
    pub closed spec fn pending(&self) -> SparseStorage<T> {
        self.inner
    }

    /// The position the drain has reached.
    pub closed spec fn position(&self) -> int {
        self.position as int
    }
}

impl<'a, T> Join for SparseDrain<'a, T> {
    type Item = T;

    type Value = T;

    open spec fn wf(&self) -> bool {
        0 <= self.position() <= usize::MAX
    }

    open spec fn cursor(&self) -> int {
        self.position()
    }

    open spec fn value_at(&self, p: int) -> Option<T> {
        self.pending().at(p)
    }

    open spec fn may_ask(&self, curr: int) -> bool {
        true
    }

    open spec fn skip_from(&self, curr: int) -> int {
        crate::sparse::gap(self.pending().entries().dom(), curr)
    }

    open spec fn can_pull(&self, n: int) -> bool {
        self.cursor() + n < usize::MAX
    }

    proof fn lemma_in_reach(&self, n: int) {
    }

    open spec fn value_of(item: T) -> T {
        item
    }

    /// The distance from `curr` to the first key at or after it;
    /// `usize::MAX` where no key is left. The drain moves on to `curr`; the
    /// values it has in store stay as they are.
    fn may_skip(&mut self, curr: usize) -> (hint: usize)
        ensures
            final(self).pending() == old(self).pending(),
    {
        self.position = curr;
        self.inner.gap_from(self.position)
    }

    /// Takes the value at the cursor out.
    fn next(&mut self) -> (item: Option<T>)
        ensures
            final(self).pending().entries() == old(self).pending().entries().remove(
                old(self).position() as usize,
            ),
    {
        let item = self.inner.remove(Entity(self.position));
        self.position += 1;
        item
    }

    /// Takes the value `n` positions after the cursor out. What stands
    /// before it stays.
    fn nth(&mut self, n: usize) -> (item: Option<T>)
        ensures
            final(self).pending().entries() == old(self).pending().entries().remove(
                (old(self).position() + n) as usize,
            ),
    {
        self.position += n;
        self.next()
    }
}

impl<'a, T> Joinable for SparseDrain<'a, T> {
    type Joined = SparseDrain<'a, T>;

    type Item = T;

    open spec fn ready(self) -> bool {
        self.position() == 0
    }

    open spec fn bound(self) -> int {
        crate::sparse::bound_of(self.pending().entries().dom())
    }

    open spec fn source_at(self, p: int) -> Option<T> {
        self.pending().at(p)
    }

    fn join(self) -> (j: Joined<SparseDrain<'a, T>>)
        ensures
            j.iter == self,
    {
        let len = self.inner.upper_bound();
        Joined::new(self, len)
    }

    fn maybe(self) -> (m: Maybe<SparseDrain<'a, T>>) {
        Maybe::new(self.join().iter)
    }
}

} // verus!
