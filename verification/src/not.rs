//! Joining on absence: `!&storage` holds a unit value exactly where the
//! storage holds none.

use crate::storage::{left_of, run};
use crate::{Iter, Join, Joinable, Joined, Maybe, SparseIter, SparseStorage, Storage};
use std::ops::Not;
use vstd::prelude::*;
use vstd::std_specs::ops::NotSpecImpl;

verus! {

/// Unit where `value` is absent, and absent where it is present.
pub open spec fn negated<V>(value: Option<V>) -> Option<()> {
    if value is Some {
        None
    } else {
        Some(())
    }
}

/// The negation of a dense storage.
pub struct NegatedStorage<'a, T>(pub &'a Storage<T>);

impl<'a, T> Not for &'a Storage<T> {
    type Output = NegatedStorage<'a, T>;

    fn not(self) -> NegatedStorage<'a, T> {
        NegatedStorage(self)
    }
}

impl<'a, T> NotSpecImpl for &'a Storage<T> {
    open spec fn obeys_not_spec() -> bool {
        true
    }

    open spec fn not_req(self) -> bool {
        true
    }

    open spec fn not_spec(self) -> NegatedStorage<'a, T> {
        NegatedStorage(self)
    }
}

impl<'a, 'b, T> Not for &'a &'b Storage<T> {
    type Output = NegatedStorage<'a, T>;

    fn not(self) -> NegatedStorage<'a, T> {
        NegatedStorage(self)
    }
}

impl<'a, 'b, T> NotSpecImpl for &'a &'b Storage<T> {
    open spec fn obeys_not_spec() -> bool {
        true
    }

    open spec fn not_req(self) -> bool {
        true
    }

    open spec fn not_spec(self) -> NegatedStorage<'a, T> {
        NegatedStorage(*self)
    }
}

impl<'a, 'b, T> Not for &'a &'b mut Storage<T> {
    type Output = NegatedStorage<'a, T>;

    fn not(self) -> NegatedStorage<'a, T> {
        NegatedStorage(self)
    }
}

impl<'a, 'b, T> NotSpecImpl for &'a &'b mut Storage<T> {
    open spec fn obeys_not_spec() -> bool {
        true
    }

    open spec fn not_req(self) -> bool {
        true
    }

    open spec fn not_spec(self) -> NegatedStorage<'a, T> {
        NegatedStorage(&**self)
    }
}

/// The strategy of a negated dense storage.
pub struct NegatedIter<'a, T>(pub Iter<'a, T>);

impl<'a, T> Join for NegatedIter<'a, T> {
    type Item = ();

    type Value = ();

    open spec fn wf(&self) -> bool {
        self.0.wf()
    }

    open spec fn cursor(&self) -> int {
        self.0.cursor()
    }

    open spec fn value_at(&self, p: int) -> Option<()> {
        negated(self.0.value_at(p))
    }

    open spec fn may_ask(&self, curr: int) -> bool {
        curr == self.cursor()
    }

    open spec fn skip_from(&self, curr: int) -> int {
        run(self.0.rest(), curr - self.0.offset(), true)
    }

    open spec fn can_pull(&self, n: int) -> bool {
        true
    }

    proof fn lemma_in_reach(&self, n: int) {
    }

    open spec fn value_of(item: ()) -> () {
        ()
    }

    /// The length of the run of present slots at the cursor: where the
    /// storage holds a value, its negation holds none.
    fn may_skip(&mut self, _curr: usize) -> (hint: usize)
        ensures
            *final(self) == *old(self),
    {
        self.0.run_length(true)
    }

    fn next(&mut self) -> (item: Option<()>)
        ensures
            final(self).0.rest() == left_of(old(self).0.rest(), 0),
    {
        if let Some(_) = self.0.next() {
            None
        } else {
            Some(())
        }
    }

    fn nth(&mut self, n: usize) -> (item: Option<()>)
        ensures
            final(self).0.rest() == left_of(old(self).0.rest(), n as int),
    {
        if let Some(_) = self.0.nth(n) {
            None
        } else {
            Some(())
        }
    }
}

impl<'a, T> Clone for NegatedIter<'a, T> {
    fn clone(&self) -> (copy: Self)
        ensures
            copy == *self,
    {
        NegatedIter(self.0.clone())
    }
}

impl<'a, T> Joinable for NegatedStorage<'a, T> {
    type Joined = NegatedIter<'a, T>;

    type Item = ();

    open spec fn ready(self) -> bool {
        true
    }

    open spec fn bound(self) -> int {
        usize::MAX as int
    }

    open spec fn source_at(self, p: int) -> Option<()> {
        negated(self.0.at(p))
    }

    fn join(self) -> (j: Joined<NegatedIter<'a, T>>)
        ensures
            j.iter.0.offset() == 0,
            j.iter.0.rest() == self.0.slots(),
    {
        let storage = self.0.join();
        Joined::new(NegatedIter(storage.iter), usize::MAX)
    }

    fn maybe(self) -> (m: Maybe<NegatedIter<'a, T>>) {
        Maybe::new(self.join().iter)
    }
}

/// The negation of a sparse storage.
pub struct NegatedSparseStorage<'a, T>(pub &'a SparseStorage<T>);

impl<'a, T> Not for &'a SparseStorage<T> {
    type Output = NegatedSparseStorage<'a, T>;

    fn not(self) -> NegatedSparseStorage<'a, T> {
        NegatedSparseStorage(self)
    }
}

impl<'a, T> NotSpecImpl for &'a SparseStorage<T> {
    open spec fn obeys_not_spec() -> bool {
        true
    }

    open spec fn not_req(self) -> bool {
        true
    }

    open spec fn not_spec(self) -> NegatedSparseStorage<'a, T> {
        NegatedSparseStorage(self)
    }
}

impl<'a, 'b, T> Not for &'a &'b SparseStorage<T> {
    type Output = NegatedSparseStorage<'a, T>;

    fn not(self) -> NegatedSparseStorage<'a, T> {
        NegatedSparseStorage(self)
    }
}

impl<'a, 'b, T> NotSpecImpl for &'a &'b SparseStorage<T> {
    open spec fn obeys_not_spec() -> bool {
        true
    }

    open spec fn not_req(self) -> bool {
        true
    }

    open spec fn not_spec(self) -> NegatedSparseStorage<'a, T> {
        NegatedSparseStorage(*self)
    }
}

impl<'a, 'b, T> Not for &'a &'b mut SparseStorage<T> {
    type Output = NegatedSparseStorage<'a, T>;

    fn not(self) -> NegatedSparseStorage<'a, T> {
        NegatedSparseStorage(self)
    }
}

impl<'a, 'b, T> NotSpecImpl for &'a &'b mut SparseStorage<T> {
    open spec fn obeys_not_spec() -> bool {
        true
    }

    open spec fn not_req(self) -> bool {
        true
    }

    open spec fn not_spec(self) -> NegatedSparseStorage<'a, T> {
        NegatedSparseStorage(&**self)
    }
}

/// The strategy of a negated sparse storage.
pub struct NegatedSparseIter<'a, T>(pub SparseIter<'a, T>);

impl<'a, T> Join for NegatedSparseIter<'a, T> {
    type Item = ();

    type Value = ();

    open spec fn wf(&self) -> bool {
        self.0.wf()
    }

    open spec fn cursor(&self) -> int {
        self.0.cursor()
    }

    open spec fn value_at(&self, p: int) -> Option<()> {
        negated(self.0.value_at(p))
    }

    open spec fn may_ask(&self, curr: int) -> bool {
        true
    }

    open spec fn skip_from(&self, curr: int) -> int {
        0
    }

    open spec fn can_pull(&self, n: int) -> bool {
        self.0.can_pull(n)
    }

    proof fn lemma_in_reach(&self, n: int) {
    }

    open spec fn value_of(item: ()) -> () {
        ()
    }

    /// Always 0: the run of keys at `curr` is not measured, so the driver
    /// probes each position of it. The strategy moves on to `curr`.
    fn may_skip(&mut self, curr: usize) -> (hint: usize)
        ensures
            final(self).0.entries() == old(self).0.entries(),
    {
        self.0.move_to(curr);
        0
    }

    fn next(&mut self) -> (item: Option<()>)
        ensures
            final(self).0.entries() == old(self).0.entries(),
    {
        if let Some(_) = self.0.next() {
            None
        } else {
            Some(())
        }
    }

    fn nth(&mut self, n: usize) -> (item: Option<()>)
        ensures
            final(self).0.entries() == old(self).0.entries(),
    {
        if let Some(_) = self.0.nth(n) {
            None
        } else {
            Some(())
        }
    }
}

impl<'a, T> Clone for NegatedSparseIter<'a, T> {
    fn clone(&self) -> (copy: Self)
        ensures
            copy == *self,
    {
        NegatedSparseIter(self.0.clone())
    }
}

impl<'a, T> Joinable for NegatedSparseStorage<'a, T> {
    type Joined = NegatedSparseIter<'a, T>;

    type Item = ();

    open spec fn ready(self) -> bool {
        true
    }

    open spec fn bound(self) -> int {
        usize::MAX as int
    }

    open spec fn source_at(self, p: int) -> Option<()> {
        negated(self.0.at(p))
    }

    fn join(self) -> (j: Joined<NegatedSparseIter<'a, T>>)
        ensures
            j.iter.0.entries() == self.0.entries(),
    {
        let storage = self.0.join();
        Joined::new(NegatedSparseIter(storage.iter), usize::MAX)
    }

    fn maybe(self) -> (m: Maybe<NegatedSparseIter<'a, T>>) {
        Maybe::new(self.join().iter)
    }
}

} // verus!
