//! Dense storage: one slot per identifier, present or absent.

use crate::{Entity, Join, Joinable, Joined, Maybe};
use vstd::pervasive::cloned;
use vstd::prelude::*;

verus! {

/// The default storage: a slot for every identifier up to the largest one
/// that was ever inserted. It suits a component that most entities have;
/// where few have it, the gaps are wasted and a
/// [`SparseStorage`](crate::SparseStorage) fits better.
#[derive(Debug)]
pub struct Storage<T> {
    inner: Vec<Option<T>>,
}

/// The number of slots, counted from index `i` on, that come before the first
/// slot whose presence differs from `present`.
pub open spec fn run<T>(slots: Seq<Option<T>>, i: int, present: bool) -> int
    decreases slots.len() - i,
{
    if 0 <= i < slots.len() && slots[i].is_some() == present {
        1 + run(slots, i + 1, present)
    } else {
        0
    }
}

/// `slots`, lengthened by absent slots until it has at least `len` of them.
pub open spec fn grown<T>(slots: Seq<Option<T>>, len: int) -> Seq<Option<T>> {
    if len <= slots.len() {
        slots
    } else {
        slots + Seq::new((len - slots.len()) as nat, |i: int| None::<T>)
    }
}

/// The slots that are left of `rest` after a pull `n` slots ahead: those
/// after the slot that was pulled.
pub open spec fn left_of<T>(rest: Seq<Option<T>>, n: int) -> Seq<Option<T>> {
    if 0 <= n < rest.len() {
        rest.subrange(n + 1, rest.len() as int)
    } else {
        Seq::empty()
    }
}

/// A run ends where the slots end or where a slot of the other kind stands,
/// and that determines it.
pub proof fn lemma_run_is<T>(slots: Seq<Option<T>>, i: int, present: bool, k: int)
    requires
        0 <= i,
        0 <= k,
        i + k <= slots.len(),
        forall|j: int| i <= j < i + k ==> (#[trigger] slots[j]).is_some() == present,
        i + k == slots.len() || slots[i + k].is_some() != present,
    ensures
        run(slots, i, present) == k,
    decreases k,
{
    if k > 0 {
        assert(slots[i].is_some() == present);
        lemma_run_is(slots, i + 1, present, k - 1);
    }
}

/// Every slot of a run is of the kind the run was asked for, and the run
/// stays inside the slots.
pub proof fn lemma_run_holds<T>(slots: Seq<Option<T>>, i: int, present: bool)
    requires
        0 <= i,
    ensures
        0 <= run(slots, i, present),
        i < slots.len() ==> i + run(slots, i, present) <= slots.len(),
        forall|j: int|
            i <= j < i + run(slots, i, present) ==> (#[trigger] slots[j]).is_some() == present,
    decreases slots.len() - i,
{
    if i < slots.len() && slots[i].is_some() == present {
        lemma_run_holds(slots, i + 1, present);
    }
}

impl<T> Storage<T> {
    /// The slots of the storage, indexed by identifier.
    pub closed spec fn slots(&self) -> Seq<Option<T>> {
        self.inner@
    }

    /// The value held for identifier `p`, if any. Identifiers past the last
    /// slot hold none.
    pub open spec fn at(&self, p: int) -> Option<T> {
        if 0 <= p < self.slots().len() {
            self.slots()[p]
        } else {
            None
        }
    }

    /// An empty storage, without slots.
    pub fn new() -> (s: Self)
        ensures
            s.slots() == Seq::<Option<T>>::empty(),
    {
        Self { inner: Vec::new() }
    }

    /// Removes all components. The slots stay, so that later insertions need
    /// not grow the storage again.
    pub fn clear(&mut self)
        ensures
            final(self).slots() == Seq::new(old(self).slots().len(), |i: int| None::<T>),
    {
        let n = self.inner.len();
        let mut i: usize = 0;
        while i < n
            invariant
                i <= n,
                self.inner@.len() == n,
                forall|j: int| 0 <= j < i ==> (#[trigger] self.inner@[j]) is None,
            decreases n - i,
        {
            self.inner[i] = None;
            i += 1;
        }
        assert(self.inner@ =~= Seq::new(old(self).slots().len(), |i: int| None::<T>));
    }

    /// The component of the entity `idx`, if it has one.
    pub fn get(&self, idx: Entity) -> (value: Option<&T>)
        ensures
            match value {
                Some(v) => self.at(idx.0 as int) == Some(*v),
                None => self.at(idx.0 as int) is None,
            },
    {
        if idx.0 < self.inner.len() {
            self.inner[idx.0].as_ref()
        } else {
            None
        }
    }

    /// Exclusive access to the component of the entity `idx`, if it has one.
    /// What is written through the reference is what the storage then holds
    /// for `idx`; nothing else changes.
    pub fn get_mut(&mut self, idx: Entity) -> (value: Option<&mut T>)
        ensures
            match value {
                Some(v) => {
                    &&& old(self).at(idx.0 as int) == Some(*v)
                    &&& final(self).slots() == old(self).slots().update(
                        idx.0 as int,
                        Some(*final(v)),
                    )
                },
                None => {
                    &&& old(self).at(idx.0 as int) is None
                    &&& final(self).slots() == old(self).slots()
                },
            },
    {
        if idx.0 < self.inner.len() {
            self.inner[idx.0].as_mut()
        } else {
            None
        }
    }

    /// Inserts a component for the entity `idx` and returns the one it had
    /// before, if any. An identifier past the last slot grows the storage up
    /// to it; the new slots in between are absent.
    pub fn insert(&mut self, idx: Entity, c: T) -> (prior: Option<T>)
        requires
            idx.0 < usize::MAX,
        ensures
            prior == old(self).at(idx.0 as int),
            final(self).slots() == grown(old(self).slots(), idx.0 + 1).update(
                idx.0 as int,
                Some(c),
            ),
    {
        while self.inner.len() <= idx.0
            invariant
                old(self).inner@.len() <= self.inner@.len(),
                self.inner@.len() <= idx.0 + 1 || self.inner@.len() == old(self).inner@.len(),
                self.inner@ == grown(old(self).slots(), self.inner@.len() as int),
            decreases idx.0 + 1 - self.inner.len(),
        {
            self.inner.push(None);
            assert(self.inner@ =~= grown(old(self).slots(), self.inner@.len() as int));
        }
        let mut slot = Some(c);
        core::mem::swap(&mut self.inner[idx.0], &mut slot);
        slot
    }

    /// Removes the component of the entity `idx` and returns it. The slot
    /// stays, absent.
    pub fn remove(&mut self, idx: Entity) -> (prior: Option<T>)
        ensures
            prior == old(self).at(idx.0 as int),
            final(self).slots() == (if idx.0 < old(self).slots().len() {
                old(self).slots().update(idx.0 as int, None)
            } else {
                old(self).slots()
            }),
    {
        if idx.0 < self.inner.len() {
            self.inner[idx.0].take()
        } else {
            None
        }
    }
}

impl<T> Storage<T> {
    /// The number of slots.
    pub(crate) fn slot_count(&self) -> (n: usize)
        ensures
            n == self.slots().len(),
    {
        self.inner.len()
    }

    /// Counts the absent slots from `from` on, up to the first present one.
    pub(crate) fn gap_from(&self, from: usize) -> (k: usize)
        ensures
            k == run(self.slots(), from as int, false),
            from + k <= self.slots().len() || k == 0,
            forall|j: int| from <= j < from + k ==> (#[trigger] self.slots()[j]) is None,
    {
        let n = self.inner.len();
        if from >= n {
            return 0;
        }
        let mut k: usize = 0;
        while from + k < n && self.inner[from + k].is_none()
            invariant
                n == self.inner@.len(),
                from + k <= n,
                forall|j: int| from <= j < from + k ==> (#[trigger] self.inner@[j]) is None,
            decreases n - k,
        {
            k += 1;
        }
        proof {
            lemma_run_is(self.inner@, from as int, false, k as int);
        }
        k
    }

    /// Moves every component out, into a storage of its own. The slots
    /// stay, absent.
    pub(crate) fn take(&mut self) -> (taken: Storage<T>)
        ensures
            taken.slots() == old(self).slots(),
            final(self).slots() == Seq::new(old(self).slots().len(), |i: int| None::<T>),
    {
        let n = self.inner.len();
        let mut fresh: Vec<Option<T>> = Vec::new();
        while fresh.len() < n
            invariant
                fresh@.len() <= n,
                forall|j: int| 0 <= j < fresh@.len() ==> (#[trigger] fresh@[j]) is None,
            decreases n - fresh@.len(),
        {
            fresh.push(None);
        }
        assert(fresh@ =~= Seq::new(old(self).slots().len(), |i: int| None::<T>));
        core::mem::swap(&mut self.inner, &mut fresh);
        Storage { inner: fresh }
    }
}

impl<T> Storage<T> {
    /// A storage never has more slots than can be counted, so that every
    /// identifier that has a slot is below `usize::MAX`.
    pub proof fn lemma_slots_fit(&self)
        ensures
            self.slots().len() <= usize::MAX,
    {
        assert(self.inner@.len() == self.inner.len());
    }
}

impl<T: Clone> Clone for Storage<T> {
    /// A storage with as many slots, each a clone of the slot it was made
    /// from.
    fn clone(&self) -> (copy: Self)
        ensures
            copy.slots().len() == self.slots().len(),
            forall|i: int|
                0 <= i < self.slots().len() ==> cloned(
                    #[trigger] self.slots()[i],
                    copy.slots()[i],
                ),
    {
        Storage { inner: self.inner.clone() }
    }
}

impl<T> Default for Storage<T> {
    fn default() -> (s: Self)
        ensures
            s.slots() == Seq::<Option<T>>::empty(),
    {
        Storage::new()
    }
}

/// The strategy of a shared dense storage: the slots that are still ahead.
pub struct Iter<'a, T> {
    slice: &'a [Option<T>],
    offset: Ghost<int>,
}

impl<'a, T> Iter<'a, T> {
    /// The slots from the cursor on.
    pub closed spec fn rest(&self) -> Seq<Option<T>> {
        self.slice@
    }

    /// The position of the first of the slots that are left.
    pub closed spec fn offset(&self) -> int {
        self.offset@
    }

    /// The slot for position `p`: absent outside the slots that are left.
    pub open spec fn slot(&self, p: int) -> Option<T> {
        if self.offset() <= p < self.offset() + self.rest().len() {
            self.rest()[p - self.offset()]
        } else {
            None
        }
    }

    /// Counts the slots at the cursor that are all present, or all absent.
    pub(crate) fn run_length(&self, present: bool) -> (k: usize)
        ensures
            k == run(self.rest(), 0, present),
            0 <= k <= self.rest().len(),
            forall|j: int| 0 <= j < k ==> (#[trigger] self.rest()[j]).is_some() == present,
    {
        let mut k: usize = 0;
        while k < self.slice.len() && self.slice[k].is_some() == present
            invariant
                0 <= k <= self.slice@.len(),
                forall|j: int| 0 <= j < k ==> (#[trigger] self.slice@[j]).is_some() == present,
            decreases self.slice@.len() - k,
        {
            k += 1;
        }
        proof {
            lemma_run_is(self.slice@, 0, present, k as int);
        }
        k
    }
}

impl<'a, T> Clone for Iter<'a, T> {
    fn clone(&self) -> (copy: Self)
        ensures
            copy == *self,
    {
        Iter { slice: self.slice, offset: self.offset }
    }
}

impl<'a, T> Join for Iter<'a, T> {
    type Item = &'a T;

    type Value = T;

    open spec fn wf(&self) -> bool {
        &&& 0 <= self.offset()
        &&& self.rest().len() > 0 ==> self.offset() + self.rest().len() <= usize::MAX
    }

    open spec fn cursor(&self) -> int {
        self.offset()
    }

    open spec fn value_at(&self, p: int) -> Option<T> {
        self.slot(p)
    }

    open spec fn may_ask(&self, curr: int) -> bool {
        curr == self.cursor()
    }

    open spec fn skip_from(&self, curr: int) -> int {
        run(self.rest(), curr - self.offset(), false)
    }

    open spec fn can_pull(&self, n: int) -> bool {
        true
    }

    proof fn lemma_in_reach(&self, n: int) {
    }

    open spec fn value_of(item: &'a T) -> T {
        *item
    }

    /// The length of the run of absent slots at the cursor. The strategy
    /// keeps no count of positions: it can be asked only where it stands.
    fn may_skip(&mut self, _curr: usize) -> (hint: usize)
        ensures
            *final(self) == *old(self),
    {
        self.run_length(false)
    }

    fn next(&mut self) -> (item: Option<&'a T>)
        ensures
            final(self).rest() == left_of(old(self).rest(), 0),
    {
        self.nth(0)
    }

    fn nth(&mut self, n: usize) -> (item: Option<&'a T>)
        ensures
            final(self).rest() == left_of(old(self).rest(), n as int),
    {
        if self.slice.len() > n {
            let (start, end) = self.slice.split_at(n + 1);
            self.slice = end;
            self.offset = Ghost(self.offset@ + n + 1);
            start[n].as_ref()
        } else {
            self.slice = &[];
            self.offset = Ghost(self.offset@ + n + 1);
            None
        }
    }
}

impl<'a, T> Joinable for &'a Storage<T> {
    type Joined = Iter<'a, T>;

    type Item = &'a T;

    open spec fn ready(self) -> bool {
        true
    }

    open spec fn bound(self) -> int {
        self.slots().len() as int
    }

    open spec fn source_at(self, p: int) -> Option<T> {
        self.at(p)
    }

    fn join(self) -> (j: Joined<Iter<'a, T>>)
        ensures
            j.iter.offset() == 0,
            j.iter.rest() == self.slots(),
    {
        Joined::new(Iter { slice: self.inner.as_slice(), offset: Ghost(0) }, self.inner.len())
    }

    fn maybe(self) -> (m: Maybe<Iter<'a, T>>) {
        Maybe::new(self.join().iter)
    }
}

/// The strategy of an exclusively borrowed dense storage: the slots that
/// are still ahead. It hands out exclusive references to the values in them.
pub struct IterMut<'a, T> {
    /// The slots from the cursor on.
    pub slice: &'a mut [Option<T>],
    /// The position of the first of them.
    pub offset: Ghost<int>,
}

impl<'a, T> IterMut<'a, T> {
    /// The slots from the cursor on, as they stand now.
    pub open spec fn rest(&self) -> Seq<Option<T>> {
        (*self.slice)@
    }

    /// The position of the first of the slots that are left.
    pub open spec fn offset(&self) -> int {
        self.offset@
    }

    /// The slot for position `p`: absent outside the slots that are left.
    pub open spec fn slot(&self, p: int) -> Option<T> {
        if self.offset() <= p < self.offset() + self.rest().len() {
            self.rest()[p - self.offset()]
        } else {
            None
        }
    }
}

/// What the slots `rest` have become once a pull `n` slots ahead is over:
/// the slots that were passed over as they were, then `pulled`, the slot
/// that was pulled as it has become, and then `ahead`, the slots that are
/// left as they have become in their turn. A pull past the last slot leaves
/// all of them as they were.
pub open spec fn written_back<T>(
    rest: Seq<Option<T>>,
    n: int,
    pulled: Option<T>,
    ahead: Seq<Option<T>>,
) -> Seq<Option<T>> {
    if 0 <= n < rest.len() {
        rest.subrange(0, n).push(pulled) + ahead
    } else {
        rest
    }
}

impl<'a, T> Join for IterMut<'a, T> {
    type Item = &'a mut T;

    type Value = T;

    open spec fn wf(&self) -> bool {
        &&& 0 <= self.offset()
        &&& self.rest().len() > 0 ==> self.offset() + self.rest().len() <= usize::MAX
    }

    open spec fn cursor(&self) -> int {
        self.offset()
    }

    open spec fn value_at(&self, p: int) -> Option<T> {
        self.slot(p)
    }

    open spec fn may_ask(&self, curr: int) -> bool {
        curr == self.cursor()
    }

    open spec fn skip_from(&self, curr: int) -> int {
        run(self.rest(), curr - self.offset(), false)
    }

    open spec fn can_pull(&self, n: int) -> bool {
        true
    }

    proof fn lemma_in_reach(&self, n: int) {
    }

    open spec fn value_of(item: &'a mut T) -> T {
        *item
    }

    /// The length of the run of absent slots at the cursor. The strategy
    /// keeps no count of positions: it can be asked only where it stands.
    fn may_skip(&mut self, _curr: usize) -> (hint: usize)
        ensures
            *final(self) == *old(self),
    {
        let mut k: usize = 0;
        while k < self.slice.len() && self.slice[k].is_none()
            invariant
                *self == *old(self),
                0 <= k <= self.slice@.len(),
                forall|j: int| 0 <= j < k ==> (#[trigger] self.slice@[j]) is None,
            decreases self.slice@.len() - k,
        {
            k += 1;
        }
        proof {
            lemma_run_is(self.slice@, 0, false, k as int);
        }
        k
    }

    fn next(&mut self) -> (item: Option<&'a mut T>)
        ensures
            final(self).rest() == left_of(old(self).rest(), 0),
            final(old(self).slice)@ == written_back(
                old(self).rest(),
                0,
                match item {
                    Some(v) => Some(*final(v)),
                    None => None,
                },
                final(final(self).slice)@,
            ),
    {
        self.nth(0)
    }

    fn nth(&mut self, n: usize) -> (item: Option<&'a mut T>)
        ensures
            final(self).rest() == left_of(old(self).rest(), n as int),
            final(old(self).slice)@ == written_back(
                old(self).rest(),
                n as int,
                match item {
                    Some(v) => Some(*final(v)),
                    None => None,
                },
                final(final(self).slice)@,
            ),
    {
        let mut rest: &'a mut [Option<T>] = &mut [];
        core::mem::swap(&mut self.slice, &mut rest);
        self.offset = Ghost(self.offset@ + n + 1);
        if rest.len() > n {
            let (start, end) = rest.split_at_mut(n + 1);
            self.slice = end;
            match start.last_mut() {
                Some(slot) => slot.as_mut(),
                None => None,
            }
        } else {
            None
        }
    }
}

impl<'a, T> Joinable for &'a mut Storage<T> {
    type Joined = IterMut<'a, T>;

    type Item = &'a mut T;

    open spec fn ready(self) -> bool {
        true
    }

    open spec fn bound(self) -> int {
        self.slots().len() as int
    }

    open spec fn source_at(self, p: int) -> Option<T> {
        self.at(p)
    }

    /// Joins over exclusive references to the values. The storage ends up
    /// with what the slots of the strategy end up with.
    fn join(self) -> (j: Joined<IterMut<'a, T>>)
        ensures
            j.iter.offset() == 0,
            j.iter.rest() == old(self).slots(),
            final(self).slots() == final(j.iter.slice)@,
    {
        let len = self.inner.len();
        Joined::new(IterMut { slice: self.inner.as_mut_slice(), offset: Ghost(0) }, len)
    }

    fn maybe(self) -> (m: Maybe<IterMut<'a, T>>) {
        Maybe::new(self.join().iter)
    }
}

/// An exclusive reference to an exclusive reference joins as the exclusive
/// reference does.
impl<'a, 'b, T> Joinable for &'a mut &'b mut Storage<T> {
    type Joined = IterMut<'a, T>;

    type Item = &'a mut T;

    open spec fn ready(self) -> bool {
        true
    }

    open spec fn bound(self) -> int {
        self.slots().len() as int
    }

    open spec fn source_at(self, p: int) -> Option<T> {
        self.at(p)
    }

    fn join(self) -> (j: Joined<IterMut<'a, T>>)
        ensures
            j.iter.offset() == 0,
            j.iter.rest() == old(self).slots(),
            final(self).slots() == final(j.iter.slice)@,
    {
        <&'a mut Storage<T>>::join(self)
    }

    fn maybe(self) -> (m: Maybe<IterMut<'a, T>>) {
        <&'a mut Storage<T>>::maybe(self)
    }
}

} // verus!
