//! Sparse storage: an ordered map from identifier to value.

use crate::{Entity, Join, Joinable, Joined, Maybe};
use std::collections::BTreeMap;
use std::collections::VecDeque;
use vstd::prelude::*;

verus! {

/// A storage for a component that few entities have. It keeps no slot for an
/// entity without the component, at the price of a search on every access.
#[derive(Debug)]
pub struct SparseStorage<T> {
    inner: BTreeMap<usize, T>,
}

/// The value that `entries` holds for position `p`, if any.
pub open spec fn entry_at<T>(entries: Map<usize, T>, p: int) -> Option<T> {
    if 0 <= p <= usize::MAX && entries.contains_key(p as usize) {
        Some(entries[p as usize])
    } else {
        None
    }
}

impl<T> SparseStorage<T> {
    /// The entries of the storage: each identifier that has a component, with
    /// that component.
    pub closed spec fn entries(&self) -> Map<usize, T> {
        self.inner@
    }

    /// The value held for identifier `p`, if any.
    pub open spec fn at(&self, p: int) -> Option<T> {
        entry_at(self.entries(), p)
    }

    /// An empty storage.
    pub fn new() -> (s: Self)
        ensures
            s.entries() == Map::<usize, T>::empty(),
    {
        Self { inner: BTreeMap::new() }
    }

    /// Removes all components.
    pub fn clear(&mut self)
        ensures
            final(self).entries() == Map::<usize, T>::empty(),
    {
        self.inner.clear()
    }

    /// The component of the entity `idx`, if it has one.
    pub fn get(&self, idx: Entity) -> (value: Option<&T>)
        ensures
            match value {
                Some(v) => self.at(idx.0 as int) == Some(*v),
                None => self.at(idx.0 as int) is None,
            },
    {
        self.inner.get(&idx.0)
    }

    /// Exclusive access to the component of the entity `idx`, if it has one.
    /// What is written through the reference is what the storage then holds
    /// for `idx`; nothing else changes.
    pub fn get_mut(&mut self, idx: Entity) -> (value: Option<&mut T>)
        ensures
            match value {
                Some(v) => {
                    &&& old(self).at(idx.0 as int) == Some(*v)
                    &&& final(self).entries() == old(self).entries().insert(idx.0, *final(v))
                },
                None => {
                    &&& old(self).at(idx.0 as int) is None
                    &&& final(self).entries() == old(self).entries()
                },
            },
    {
        value_mut(&mut self.inner, idx.0)
    }

    /// Inserts a component for the entity `idx` and returns the one it had
    /// before, if any.
    pub fn insert(&mut self, idx: Entity, c: T) -> (prior: Option<T>)
        ensures
            prior == old(self).at(idx.0 as int),
            final(self).entries() == old(self).entries().insert(idx.0, c),
    {
        self.inner.insert(idx.0, c)
    }

    /// Removes the component of the entity `idx` and returns it.
    pub fn remove(&mut self, idx: Entity) -> (prior: Option<T>)
        ensures
            prior == old(self).at(idx.0 as int),
            final(self).entries() == old(self).entries().remove(idx.0),
    {
        self.inner.remove(&idx.0)
    }
}

impl<T: Clone> Clone for SparseStorage<T> {
    /// A storage with the same entries.
    fn clone(&self) -> (copy: Self)
        ensures
            copy.entries() == self.entries(),
    {
        SparseStorage { inner: self.inner.clone() }
    }
}

impl<T> Default for SparseStorage<T> {
    fn default() -> (s: Self)
        ensures
            s.entries() == Map::<usize, T>::empty(),
    {
        SparseStorage::new()
    }
}

/// `k` is the smallest of `keys` that is not below `from`.
pub open spec fn is_first_from(keys: Set<usize>, from: int, k: usize) -> bool {
    &&& keys.contains(k)
    &&& from <= k
    &&& forall|j: usize| keys.contains(j) && from <= j ==> k <= j
}

/// The smallest of `keys` that is not below `from`, if there is one.
pub open spec fn first_from(keys: Set<usize>, from: int) -> Option<usize> {
    if exists|k: usize| is_first_from(keys, from, k) {
        Some(choose|k: usize| is_first_from(keys, from, k))
    } else {
        None
    }
}

/// The number of positions from `from` on that come before the first key, or
/// `usize::MAX` where no key is left.
pub open spec fn gap(keys: Set<usize>, from: int) -> int {
    match first_from(keys, from) {
        Some(k) => k - from,
        None => usize::MAX as int,
    }
}

/// `k` is the largest of `keys`.
pub open spec fn is_last(keys: Set<usize>, k: usize) -> bool {
    &&& keys.contains(k)
    &&& forall|j: usize| keys.contains(j) ==> j <= k
}

/// The upper bound of a set of keys: one past the largest key, 0 without
/// keys, and never more than `usize::MAX`.
pub open spec fn bound_of(keys: Set<usize>) -> int {
    if exists|k: usize| is_last(keys, k) {
        let k = choose|k: usize| is_last(keys, k);
        if k < usize::MAX {
            k + 1
        } else {
            usize::MAX as int
        }
    } else {
        0
    }
}

/// Whatever key is the first from a position on, it is the one `first_from`
/// names.
pub proof fn lemma_first_from_is(keys: Set<usize>, from: int, k: usize)
    requires
        is_first_from(keys, from, k),
    ensures
        first_from(keys, from) == Some(k),
{
    let c = choose|c: usize| is_first_from(keys, from, c);
    assert(is_first_from(keys, from, c));
    assert(c <= k && k <= c);
}

/// Without a key at or after a position, `first_from` names none.
pub proof fn lemma_first_from_none(keys: Set<usize>, from: int)
    requires
        forall|j: usize| keys.contains(j) ==> j < from,
    ensures
        first_from(keys, from) is None,
{
}

/// Where some key is at or after a position, one of them is the first.
pub proof fn lemma_some_first_from(keys: Set<usize>, from: int, j: usize)
    requires
        keys.contains(j),
        from <= j,
    ensures
        exists|k: usize| is_first_from(keys, from, k),
    decreases j - from,
{
    if exists|i: usize| keys.contains(i) && from <= i < j {
        let i = choose|i: usize| keys.contains(i) && from <= i < j;
        lemma_some_first_from(keys, from, i);
    } else {
        assert(is_first_from(keys, from, j));
    }
}

/// No key lies in the gap, and none at or after the bound.
pub proof fn lemma_gap_empty(keys: Set<usize>, from: int)
    requires
        0 <= from,
    ensures
        0 <= gap(keys, from),
        forall|j: usize| from <= j < from + gap(keys, from) ==> !keys.contains(j),
{
    if exists|k: usize| is_first_from(keys, from, k) {
        let c = choose|c: usize| is_first_from(keys, from, c);
        assert(is_first_from(keys, from, c));
    } else {
        assert forall|j: usize| from <= j implies !keys.contains(j) by {
            if keys.contains(j) {
                lemma_some_first_from(keys, from, j);
            }
        }
    }
}

/// A set with a key in it has a largest key.
pub proof fn lemma_some_last(keys: Set<usize>, j: usize)
    requires
        keys.contains(j),
    ensures
        exists|k: usize| is_last(keys, k),
    decreases usize::MAX - j,
{
    if exists|i: usize| keys.contains(i) && j < i {
        let i = choose|i: usize| keys.contains(i) && j < i;
        lemma_some_last(keys, i);
    } else {
        assert(is_last(keys, j));
    }
}

/// The key after which the bound stands is the largest, whichever way it
/// was found.
pub proof fn lemma_bound_of_is(keys: Set<usize>, k: usize)
    requires
        is_last(keys, k),
    ensures
        bound_of(keys) == (if k < usize::MAX {
            k + 1
        } else {
            usize::MAX as int
        }),
{
    let c = choose|c: usize| is_last(keys, c);
    assert(is_last(keys, c));
    assert(c <= k && k <= c);
}

/// No key is at or after the bound, but for `usize::MAX` itself.
pub proof fn lemma_bound_of_holds(keys: Set<usize>)
    ensures
        0 <= bound_of(keys) <= usize::MAX,
        forall|j: usize| keys.contains(j) ==> j < bound_of(keys) || j == usize::MAX,
{
    if exists|k: usize| is_last(keys, k) {
        let c = choose|c: usize| is_last(keys, c);
        assert(is_last(keys, c));
    } else {
        assert forall|j: usize| !keys.contains(j) by {
            if keys.contains(j) {
                lemma_some_last(keys, j);
            }
        }
    }
}

/// The first key of `map` at or after `from`. Calls `BTreeMap::range` with
/// the range `from..` and takes the first entry it yields; the map yields
/// its entries in ascending key order, so that entry has the smallest key in
/// the range, and there is none exactly when no key lies in the range.
#[verifier::external_body]
fn first_key_from<T>(map: &BTreeMap<usize, T>, from: usize) -> (key: Option<usize>)
    ensures
        match key {
            Some(k) => is_first_from(map@.dom(), from as int, k),
            None => forall|j: usize| map@.contains_key(j) ==> j < from,
        },
{
    map.range(from..).next().map(|(k, _)| *k)
}

/// The largest key of `map`. Calls `BTreeMap::last_key_value`, which
/// returns the entry with the maximum key, and none for an empty map.
#[verifier::external_body]
fn last_key<T>(map: &BTreeMap<usize, T>) -> (key: Option<usize>)
    ensures
        match key {
            Some(k) => is_last(map@.dom(), k),
            None => map@.dom() == Set::<usize>::empty(),
        },
{
    map.last_key_value().map(|(k, _)| *k)
}

/// Exclusive access to the value under `key`. Calls `BTreeMap::get_mut`,
/// which returns a reference to the value of a key that the map holds and
/// none otherwise; the map changes only in what is written through the
/// reference.
#[verifier::external_body]
fn value_mut<'a, T>(map: &'a mut BTreeMap<usize, T>, key: usize) -> (value: Option<&'a mut T>)
    ensures
        match value {
            Some(v) => {
                &&& old(map)@.contains_key(key)
                &&& *v == old(map)@[key]
                &&& final(map)@ == old(map)@.insert(key, *final(v))
            },
            None => {
                &&& !old(map)@.contains_key(key)
                &&& final(map)@ == old(map)@
            },
        },
{
    map.get_mut(&key)
}

/// Measures the gap before the first key of a map at or after `from`.
fn gap_from<T>(map: &BTreeMap<usize, T>, from: usize) -> (k: usize)
    ensures
        k == gap(map@.dom(), from as int),
        forall|j: usize| from <= j < from + k ==> !map@.contains_key(j),
{
    proof {
        lemma_gap_empty(map@.dom(), from as int);
    }
    match first_key_from(map, from) {
        Some(key) => {
            proof {
                lemma_first_from_is(map@.dom(), from as int, key);
            }
            key - from
        },
        None => {
            proof {
                lemma_first_from_none(map@.dom(), from as int);
            }
            usize::MAX
        },
    }
}

/// Computes the upper bound of a map's keys.
fn upper_bound<T>(map: &BTreeMap<usize, T>) -> (len: usize)
    ensures
        len == bound_of(map@.dom()),
        forall|j: usize| map@.contains_key(j) ==> j < len || j == usize::MAX,
{
    proof {
        lemma_bound_of_holds(map@.dom());
    }
    match last_key(map) {
        Some(k) => {
            proof {
                lemma_bound_of_is(map@.dom(), k);
            }
            if k < usize::MAX {
                k + 1
            } else {
                usize::MAX
            }
        },
        None => 0,
    }
}

impl<T> SparseStorage<T> {
    /// The upper bound of the keys.
    pub(crate) fn upper_bound(&self) -> (len: usize)
        ensures
            len == bound_of(self.entries().dom()),
            forall|j: usize| self.entries().contains_key(j) ==> j < len || j == usize::MAX,
    {
        upper_bound(&self.inner)
    }

    /// The distance from `from` to the first key at or after it, or
    /// `usize::MAX` where no key is left.
    pub(crate) fn gap_from(&self, from: usize) -> (k: usize)
        ensures
            k == gap(self.entries().dom(), from as int),
            forall|j: usize| from <= j < from + k ==> !self.entries().contains_key(j),
    {
        gap_from(&self.inner, from)
    }

    /// Moves every component out, into a storage of its own.
    pub(crate) fn take(&mut self) -> (taken: SparseStorage<T>)
        ensures
            taken.entries() == old(self).entries(),
            final(self).entries() == Map::<usize, T>::empty(),
    {
        let mut taken = BTreeMap::new();
        core::mem::swap(&mut self.inner, &mut taken);
        SparseStorage { inner: taken }
    }
}

/// The strategy of a shared sparse storage: the map and a position in it.
pub struct SparseIter<'a, T> {
    inner: &'a BTreeMap<usize, T>,
    position: usize,
}

impl<'a, T> SparseIter<'a, T> {
    /// The entries of the storage that is walked.
    pub closed spec fn entries(&self) -> Map<usize, T> {
        self.inner@
    }

    /// The position the strategy has reached.
    pub closed spec fn position(&self) -> int {
        self.position as int
    }
}

impl<'a, T> SparseIter<'a, T> {
    /// Places the strategy at `curr`.
    pub(crate) fn move_to(&mut self, curr: usize)
        ensures
            final(self).position() == curr,
            final(self).entries() == old(self).entries(),
    {
        self.position = curr;
    }
}

impl<'a, T> Clone for SparseIter<'a, T> {
    fn clone(&self) -> (copy: Self)
        ensures
            copy == *self,
    {
        SparseIter { inner: self.inner, position: self.position }
    }
}

impl<'a, T> Join for SparseIter<'a, T> {
    type Item = &'a T;

    type Value = T;

    open spec fn wf(&self) -> bool {
        0 <= self.position() <= usize::MAX
    }

    open spec fn cursor(&self) -> int {
        self.position()
    }

    open spec fn value_at(&self, p: int) -> Option<T> {
        entry_at(self.entries(), p)
    }

    open spec fn may_ask(&self, curr: int) -> bool {
        true
    }

    open spec fn skip_from(&self, curr: int) -> int {
        gap(self.entries().dom(), curr)
    }

    open spec fn can_pull(&self, n: int) -> bool {
        self.cursor() + n < usize::MAX
    }

    proof fn lemma_in_reach(&self, n: int) {
    }

    open spec fn value_of(item: &'a T) -> T {
        *item
    }

    /// The distance from `curr` to the first key at or after it, found by
    /// one search in the map; `usize::MAX` where no key is left. The
    /// strategy moves on to `curr`.
    fn may_skip(&mut self, curr: usize) -> (hint: usize)
        ensures
            final(self).entries() == old(self).entries(),
    {
        self.move_to(curr);
        gap_from(self.inner, self.position)
    }

    fn next(&mut self) -> (item: Option<&'a T>)
        ensures
            final(self).entries() == old(self).entries(),
    {
        let item = self.inner.get(&self.position);
        self.position += 1;
        item
    }

    fn nth(&mut self, n: usize) -> (item: Option<&'a T>)
        ensures
            final(self).entries() == old(self).entries(),
    {
        self.position += n;
        self.next()
    }
}

impl<'a, T> Joinable for &'a SparseStorage<T> {
    type Joined = SparseIter<'a, T>;

    type Item = &'a T;

    open spec fn ready(self) -> bool {
        true
    }

    open spec fn bound(self) -> int {
        bound_of(self.entries().dom())
    }

    open spec fn source_at(self, p: int) -> Option<T> {
        self.at(p)
    }

    /// Joins up to one past the largest key. An entry under `usize::MAX`
    /// itself stands at the bound, and the join ends before it.
    fn join(self) -> (j: Joined<SparseIter<'a, T>>)
        ensures
            j.iter.entries() == self.entries(),
    {
        let len = upper_bound(&self.inner);
        Joined::new(SparseIter { inner: &self.inner, position: 0 }, len)
    }

    fn maybe(self) -> (m: Maybe<SparseIter<'a, T>>) {
        Maybe::new(self.join().iter)
    }
}

/// Keys ascend strictly along `entries`.
pub open spec fn ascending<V>(entries: Seq<(usize, V)>) -> bool {
    forall|i: int, j: int| 0 <= i < j < entries.len() ==> entries[i].0 < entries[j].0
}

/// What stands under the key `p` in `entries`: the second half of the first
/// entry whose key is `p`.
pub open spec fn find<V>(entries: Seq<(usize, V)>, p: int) -> Option<V>
    decreases entries.len(),
{
    if entries.len() == 0 {
        None
    } else if entries[0].0 == p {
        Some(entries[0].1)
    } else {
        find(entries.subrange(1, entries.len() as int), p)
    }
}

/// The entries of `entries` that come after the leading ones with a key up
/// to `p`. Where the keys ascend, these are the entries with a key above
/// `p`.
pub open spec fn ahead_of<V>(entries: Seq<(usize, V)>, p: int) -> Seq<(usize, V)>
    decreases entries.len(),
{
    if entries.len() > 0 && entries[0].0 <= p {
        ahead_of(entries.subrange(1, entries.len() as int), p)
    } else {
        entries
    }
}

/// A key that no entry has stands for nothing.
pub proof fn lemma_find_none<V>(entries: Seq<(usize, V)>, p: int)
    requires
        forall|i: int| 0 <= i < entries.len() ==> (#[trigger] entries[i]).0 != p,
    ensures
        find(entries, p) is None,
    decreases entries.len(),
{
    if entries.len() > 0 {
        let rest = entries.subrange(1, entries.len() as int);
        assert forall|i: int| 0 <= i < rest.len() implies (#[trigger] rest[i]).0 != p by {
            assert(rest[i] == entries[i + 1]);
        }
        lemma_find_none(rest, p);
    }
}

/// Under the key of an entry stands that entry's second half, where no
/// earlier entry has the same key.
pub proof fn lemma_find_some<V>(entries: Seq<(usize, V)>, i: int)
    requires
        0 <= i < entries.len(),
        forall|j: int| 0 <= j < i ==> (#[trigger] entries[j]).0 != entries[i].0,
    ensures
        find(entries, entries[i].0 as int) == Some(entries[i].1),
    decreases i,
{
    if i > 0 {
        let rest = entries.subrange(1, entries.len() as int);
        assert(entries[0].0 != entries[i].0);
        assert(rest[i - 1] == entries[i]);
        assert forall|j: int| 0 <= j < i - 1 implies (#[trigger] rest[j]).0 != rest[i - 1].0 by {
            assert(rest[j] == entries[j + 1]);
        }
        lemma_find_some(rest, i - 1);
    }
}

/// `entries` lists `map`: every entry of the map once, in ascending key
/// order, each with a reference to the value as it stands.
pub open spec fn lists<'a, T>(entries: Seq<(usize, &'a mut T)>, map: Map<usize, T>) -> bool {
    &&& ascending(entries)
    &&& forall|i: int|
        0 <= i < entries.len() ==> map.contains_key((#[trigger] entries[i]).0) && *entries[i].1
            == map[entries[i].0]
    &&& forall|k: usize|
        map.contains_key(k) ==> exists|i: int|
            0 <= i < entries.len() && (#[trigger] entries[i]).0 == k
}

/// The entries of `map` in ascending key order, each value by exclusive
/// reference. Calls `BTreeMap::iter_mut`, which visits every entry of the
/// map once, sorted by key, and lends its value out mutably; the keys are
/// copied. The map keeps its keys, and holds under each what was last
/// written through the reference that was handed out for it.
#[verifier::external_body]
fn entries_mut<'a, T>(map: &'a mut BTreeMap<usize, T>) -> (entries: VecDeque<(usize, &'a mut T)>)
    ensures
        lists(entries@, old(map)@),
        final(map)@.dom() == old(map)@.dom(),
        forall|i: int|
            0 <= i < entries@.len() ==> final(map)@[(#[trigger] entries@[i]).0] == *final(
                entries@[i].1
            ),
{
    map.iter_mut().map(|(k, v)| (*k, v)).collect()
}

/// The strategy of an exclusively borrowed sparse storage: the entries that
/// are still ahead, in ascending key order, and a position. It hands out
/// exclusive references to the values.
pub struct SparseIterMut<'a, T> {
    inner: VecDeque<(usize, &'a mut T)>,
    position: usize,
}

impl<'a, T> SparseIterMut<'a, T> {
    /// The entries that have not been handed out or passed over.
    pub closed spec fn ahead(&self) -> Seq<(usize, &'a mut T)> {
        self.inner@
    }

    /// The position the strategy has reached.
    pub closed spec fn position(&self) -> int {
        self.position as int
    }

    /// The value under position `p`, as it stands now.
    pub open spec fn entry(&self, p: int) -> Option<T> {
        match find(self.ahead(), p) {
            Some(value) => Some(*value),
            None => None,
        }
    }
}

impl<'a, T> Join for SparseIterMut<'a, T> {
    type Item = &'a mut T;

    type Value = T;

    open spec fn wf(&self) -> bool {
        &&& ascending(self.ahead())
        &&& 0 <= self.position() <= usize::MAX
    }

    open spec fn cursor(&self) -> int {
        self.position()
    }

    open spec fn value_at(&self, p: int) -> Option<T> {
        self.entry(p)
    }

    open spec fn may_ask(&self, curr: int) -> bool {
        true
    }

    open spec fn skip_from(&self, curr: int) -> int {
        if self.ahead().len() == 0 {
            usize::MAX as int
        } else if self.ahead()[0].0 >= curr {
            self.ahead()[0].0 - curr
        } else {
            0
        }
    }

    open spec fn can_pull(&self, n: int) -> bool {
        self.cursor() + n < usize::MAX
    }

    proof fn lemma_in_reach(&self, n: int) {
    }

    open spec fn value_of(item: &'a mut T) -> T {
        *item
    }

    /// The distance from `curr` to the key of the first entry ahead;
    /// `usize::MAX` where no entry is left, and 0 where the first entry
    /// ahead is one that `curr` has passed. The strategy moves on to `curr`
    /// and takes no entry out.
    fn may_skip(&mut self, curr: usize) -> (hint: usize)
        ensures
            final(self).ahead() == old(self).ahead(),
    {
        self.position = curr;
        if self.inner.len() == 0 {
            proof {
                assert forall|p: int| true implies find(self.inner@, p) is None by {}
            }
            usize::MAX
        } else if self.inner[0].0 >= curr {
            proof {
                let first = self.inner@[0].0;
                assert forall|p: int| curr <= p < first implies find(self.inner@, p) is None by {
                    lemma_find_none(self.inner@, p);
                }
            }
            self.inner[0].0 - curr
        } else {
            0
        }
    }

    /// Passes over the entries below the position, hands out the entry at
    /// the position if there is one, and moves on by one. The item is the very
    /// reference that stood under the position; what was passed over stays
    /// as it was.
    fn next(&mut self) -> (item: Option<&'a mut T>)
        ensures
            item == find(old(self).ahead(), old(self).position()),
            final(self).ahead() == ahead_of(old(self).ahead(), old(self).position()),
            forall|i: int|
                0 <= i < old(self).ahead().len() && (#[trigger] old(self).ahead()[i]).0 < old(
                    self,
                ).position() ==> *final(old(self).ahead()[i].1) == *old(self).ahead()[i].1,
    {
        let position = self.position;
        let ghost mut passed: int = 0;
        while self.inner.len() > 0 && self.inner[0].0 < position
            invariant
                ascending(self.inner@),
                self.position == position,
                forall|q: int| q >= position ==> find(self.inner@, q) == find(old(self).inner@, q),
                ahead_of(self.inner@, position as int) == ahead_of(
                    old(self).inner@,
                    position as int,
                ),
                0 <= passed <= old(self).inner@.len(),
                self.inner@ == old(self).inner@.subrange(passed, old(self).inner@.len() as int),
                forall|i: int|
                    0 <= i < passed ==> *final((#[trigger] old(self).inner@[i]).1) == *old(
                        self,
                    ).inner@[i].1,
            decreases self.inner@.len(),
        {
            let ghost before = self.inner@;
            self.inner.pop_front();
            proof {
                assert forall|i: int, j: int|
                    0 <= i < j < self.inner@.len() implies self.inner@[i].0
                    < self.inner@[j].0 by {
                    assert(self.inner@[i] == before[i + 1] && self.inner@[j] == before[j + 1]);
                }
                assert(before[0] == old(self).inner@[passed]);
                passed = passed + 1;
                assert(self.inner@ =~= old(self).inner@.subrange(
                    passed,
                    old(self).inner@.len() as int,
                ));
            }
        }
        let ghost before = self.inner@;
        let item = if self.inner.len() > 0 && self.inner[0].0 == position {
            match self.inner.pop_front() {
                Some((_, value)) => Some(value),
                None => None,
            }
        } else {
            proof {
                lemma_find_none(before, position as int);
            }
            None
        };
        proof {
            assert forall|i: int, j: int| 0 <= i < j < self.inner@.len() implies self.inner@[i].0
                < self.inner@[j].0 by {
                if self.inner@.len() < before.len() {
                    assert(self.inner@[i] == before[i + 1] && self.inner@[j] == before[j + 1]);
                }
            }
            if self.inner@.len() < before.len() {
                assert(self.inner@ == before.subrange(1, before.len() as int));
                if self.inner@.len() > 0 {
                    assert(self.inner@[0] == before[1]);
                }
                assert(ahead_of(before, position as int) == ahead_of(self.inner@, position as int));
            }
            assert(ahead_of(self.inner@, position as int) == self.inner@);
            assert forall|i: int|
                0 <= i < old(self).inner@.len() && (#[trigger] old(self).inner@[i]).0
                    < position implies i < passed by {
                if i >= passed {
                    assert(before[i - passed] == old(self).inner@[i]);
                    assert(before[0].0 <= before[i - passed].0);
                }
            }
        }
        self.position += 1;
        item
    }

    /// As `next`, `n` positions further on.
    fn nth(&mut self, n: usize) -> (item: Option<&'a mut T>)
        ensures
            item == find(old(self).ahead(), old(self).position() + n),
            final(self).ahead() == ahead_of(old(self).ahead(), old(self).position() + n),
            forall|i: int|
                0 <= i < old(self).ahead().len() && (#[trigger] old(self).ahead()[i]).0 < old(
                    self,
                ).position() + n ==> *final(old(self).ahead()[i].1) == *old(self).ahead()[i].1,
    {
        self.position += n;
        self.next()
    }
}

impl<'a, T> Joinable for &'a mut SparseStorage<T> {
    type Joined = SparseIterMut<'a, T>;

    type Item = &'a mut T;

    open spec fn ready(self) -> bool {
        true
    }

    open spec fn bound(self) -> int {
        bound_of(self.entries().dom())
    }

    open spec fn source_at(self, p: int) -> Option<T> {
        self.at(p)
    }

    /// Joins over exclusive references to the values. What is written
    /// through a reference is what the storage then holds under its key;
    /// the keys stay.
    fn join(self) -> (j: Joined<SparseIterMut<'a, T>>)
        ensures
            lists(j.iter.ahead(), old(self).entries()),
            final(self).entries().dom() == old(self).entries().dom(),
            forall|i: int|
                0 <= i < j.iter.ahead().len() ==> final(self).entries()[(
                #[trigger] j.iter.ahead()[i]).0] == *final(j.iter.ahead()[i].1),
    {
        let len = upper_bound(&self.inner);
        let ghost before = self.inner@;
        let entries = entries_mut(&mut self.inner);
        proof {
            assert forall|p: int| 0 <= p implies match find(entries@, p) {
                Some(value) => Some(*value),
                None => None,
            } == entry_at(before, p) by {
                if 0 <= p <= usize::MAX && before.contains_key(p as usize) {
                    let i = choose|i: int|
                        0 <= i < entries@.len() && (#[trigger] entries@[i]).0 == p as usize;
                    lemma_find_some(entries@, i);
                } else {
                    lemma_find_none(entries@, p);
                }
            }
        }
        Joined::new(SparseIterMut { inner: entries, position: 0 }, len)
    }

    fn maybe(self) -> (m: Maybe<SparseIterMut<'a, T>>) {
        Maybe::new(self.join().iter)
    }
}

/// An exclusive reference to an exclusive reference joins as the exclusive
/// reference does.
impl<'a, 'b, T> Joinable for &'a mut &'b mut SparseStorage<T> {
    type Joined = SparseIterMut<'a, T>;

    type Item = &'a mut T;

    open spec fn ready(self) -> bool {
        true
    }

    open spec fn bound(self) -> int {
        bound_of(self.entries().dom())
    }

    open spec fn source_at(self, p: int) -> Option<T> {
        self.at(p)
    }

    fn join(self) -> (j: Joined<SparseIterMut<'a, T>>)
        ensures
            lists(j.iter.ahead(), old(self).entries()),
            final(self).entries().dom() == old(self).entries().dom(),
            forall|i: int|
                0 <= i < j.iter.ahead().len() ==> final(self).entries()[(
                #[trigger] j.iter.ahead()[i]).0] == *final(j.iter.ahead()[i].1),
    {
        proof {
            lemma_bound_of_holds(self.entries().dom());
        }
        <&'a mut SparseStorage<T>>::join(self)
    }

    fn maybe(self) -> (m: Maybe<SparseIterMut<'a, T>>) {
        <&'a mut SparseStorage<T>>::maybe(self)
    }
}

} // verus!
