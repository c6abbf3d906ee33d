//! Component storages keyed by entity, and ordered joins over several of them.
//!
//! A storage maps identifiers to optional values. A join walks several
//! storages at once, in ascending identifier order, and hands out the values
//! of exactly those identifiers that every participant holds. Each
//! participant is a *strategy*: it can be asked for the value at a position
//! and for a count of positions that are known to be empty, so that the
//! driver jumps over gaps in place of probing them one by one.
//!
//! ```
//! use crow_ecs::{Entities, Entity, Joinable, Storage};
//!
//! let a = Entity(0);
//! let b = Entity(1);
//!
//! let mut names = Storage::new();
//! names.insert(a, "Foo");
//! names.insert(b, "Bar");
//!
//! let mut health = Storage::new();
//! health.insert(a, 17);
//! health.insert(b, 3);
//!
//! // take 1 HP of each named player
//! let mut players = (&names, &mut health, Entities).join();
//! while let Some((name, health, id)) = players.next() {
//!     *health -= 1;
//!     println!("The player `{}` with ID {} now has {} health", name, id.0, health);
//! }
//! ```

use vstd::pervasive::cloned;
use vstd::prelude::*;

pub mod drain;
pub mod entities;
pub mod laws;
pub mod maybe;
pub mod not;
pub mod sparse;
pub mod storage;
pub mod tuple;

pub use entities::{Entities, EntitiesIter};
pub use maybe::Maybe;
pub use sparse::{SparseIter, SparseIterMut, SparseStorage};
pub use storage::{Iter, IterMut, Storage};

verus! {

/// Names an entity. It is nothing but an index: two handles with the same
/// number name the same entity, and nothing guards against a number being
/// handed out again after its entity is gone.
#[derive(Debug, Clone, Copy, PartialEq, Eq, PartialOrd, Ord, Hash, Structural)]
pub struct Entity(pub usize);

/// A forward-only strategy over positions `0, 1, 2, ...`.
///
/// In contracts a strategy is a cursor together with a partial function from
/// positions to values, `value_at`. Positions below the cursor are behind it
/// and no longer of interest; a pull reads one position at or after the cursor
/// and moves the cursor just past it.
pub trait Join: Sized {
    /// What a pull hands out.
    type Item;

    /// What an item stands for in contracts: a shared or exclusive reference
    /// stands for the value it points to.
    type Value;

    /// The strategy is in a state that its own operations can reach.
    spec fn wf(&self) -> bool;

    /// The next position a pull would read.
    spec fn cursor(&self) -> int;

    /// The value held for position `p`, for `p` at or after the cursor.
    spec fn value_at(&self, p: int) -> Option<Self::Value>;

    /// The value that `item` stands for.
    spec fn value_of(item: Self::Item) -> Self::Value;

    /// Whether `may_skip` may be asked about position `curr`. A strategy
    /// that finds its place by position may be asked about any position; one
    /// that only knows what lies ahead of it, at its cursor alone.
    spec fn may_ask(&self, curr: int) -> bool;

    /// The number of positions that `may_skip` reports as empty from `curr`
    /// on.
    spec fn skip_from(&self, curr: int) -> int;

    /// Whether a pull `n` positions after the cursor is within what the
    /// strategy can count. A strategy that keeps no count can pull any
    /// distance.
    spec fn can_pull(&self, n: int) -> bool;

    /// Every strategy may be asked at its cursor, and can pull to any
    /// position below `usize::MAX`: that is all a driver needs.
    proof fn lemma_in_reach(&self, n: int)
        requires
            self.wf(),
            0 <= n,
            self.cursor() + n < usize::MAX,
        ensures
            self.may_ask(self.cursor()),
            self.can_pull(n),
    ;

    /// Reports how many positions, starting at `curr`, are known to hold no
    /// value, and leaves the strategy standing at `curr`. The report may
    /// fall short of the next value; it never reaches past it.
    fn may_skip(&mut self, curr: usize) -> (hint: usize)
        requires
            old(self).wf(),
            old(self).may_ask(curr as int),
        ensures
            final(self).wf(),
            final(self).cursor() == curr,
            hint == old(self).skip_from(curr as int),
            forall|p: int|
                #![trigger final(self).value_at(p)]
                #![trigger old(self).value_at(p)]
                p >= curr ==> final(self).value_at(p) == old(self).value_at(p),
            forall|p: int| curr <= p < curr + hint ==> (#[trigger] old(self).value_at(p)) is None,
    ;

    /// Pulls the value at the cursor.
    fn next(&mut self) -> (item: Option<Self::Item>)
        requires
            old(self).wf(),
            old(self).can_pull(0),
        ensures
            final(self).wf(),
            final(self).cursor() == old(self).cursor() + 1,
            forall|q: int|
                #![trigger final(self).value_at(q)]
                #![trigger old(self).value_at(q)]
                q > old(self).cursor() ==> final(self).value_at(q) == old(self).value_at(q),
            match item {
                Some(i) => old(self).value_at(old(self).cursor()) == Some(Self::value_of(i)),
                None => old(self).value_at(old(self).cursor()) is None,
            },
    ;

    /// Pulls the value `n` positions after the cursor.
    fn nth(&mut self, n: usize) -> (item: Option<Self::Item>)
        requires
            old(self).wf(),
            old(self).can_pull(n as int),
        ensures
            final(self).wf(),
            final(self).cursor() == old(self).cursor() + n + 1,
            forall|q: int|
                #![trigger final(self).value_at(q)]
                #![trigger old(self).value_at(q)]
                q > old(self).cursor() + n ==> final(self).value_at(q) == old(self).value_at(q),
            match item {
                Some(i) => old(self).value_at(old(self).cursor() + n) == Some(Self::value_of(i)),
                None => old(self).value_at(old(self).cursor() + n) is None,
            },
    ;
}

/// No position in `lo..hi` holds a value.
pub open spec fn empty_between<J: Join>(iter: J, lo: int, hi: int) -> bool {
    forall|q: int| lo <= q < hi ==> (#[trigger] iter.value_at(q)) is None
}

/// The positions in `lo..hi` at which `iter` holds a value, in ascending
/// order.
pub open spec fn matched<J: Join>(iter: J, lo: int, hi: int) -> Seq<int>
    decreases hi - lo,
{
    if lo >= hi {
        Seq::empty()
    } else if iter.value_at(lo) is Some {
        seq![lo] + matched(iter, lo + 1, hi)
    } else {
        matched(iter, lo + 1, hi)
    }
}

/// The matches of a range are the positions in it that hold a value, each
/// once and in ascending order, and nothing else.
pub proof fn lemma_matched_exact<J: Join>(iter: J, lo: int, hi: int)
    ensures
        forall|p: int|
            matched(iter, lo, hi).contains(p) <==> lo <= p < hi && (#[trigger] iter.value_at(
                p,
            )) is Some,
        forall|i: int, k: int|
            0 <= i < k < matched(iter, lo, hi).len() ==> matched(iter, lo, hi)[i] < matched(
                iter,
                lo,
                hi,
            )[k],
        forall|i: int|
            0 <= i < matched(iter, lo, hi).len() ==> lo <= #[trigger] matched(iter, lo, hi)[i]
                < hi,
    decreases hi - lo,
{
    let m = matched(iter, lo, hi);
    if lo < hi {
        lemma_matched_exact(iter, lo + 1, hi);
        let tail = matched(iter, lo + 1, hi);
        if iter.value_at(lo) is Some {
            assert(m[0] == lo);
            assert forall|i: int| 1 <= i < m.len() implies m[i] == tail[i - 1] by {}
            assert forall|p: int|
                m.contains(p) <==> lo <= p < hi && (#[trigger] iter.value_at(p)) is Some by {
                if m.contains(p) {
                    let i = choose|i: int| 0 <= i < m.len() && m[i] == p;
                    if i > 0 {
                        assert(tail[i - 1] == p);
                    }
                }
                if lo < p < hi && iter.value_at(p) is Some {
                    assert(tail.contains(p));
                    let i = choose|i: int| 0 <= i < tail.len() && tail[i] == p;
                    assert(m[i + 1] == p);
                }
            }
        }
    }
}

/// Matches depend only on where values are held: two strategies that hold
/// values at the same positions of a range have the same matches in it.
pub proof fn lemma_matched_same<J: Join, K: Join>(a: J, b: K, lo: int, hi: int)
    requires
        forall|p: int|
            lo <= p < hi ==> ((#[trigger] a.value_at(p)) is Some <==> (#[trigger] b.value_at(
                p,
            )) is Some),
    ensures
        matched(a, lo, hi) == matched(b, lo, hi),
    decreases hi - lo,
{
    if lo < hi {
        lemma_matched_same(a, b, lo + 1, hi);
    }
}

/// The matches of a range are those of its first part followed by those of
/// its second part.
pub proof fn lemma_matched_split<J: Join>(iter: J, lo: int, mid: int, hi: int)
    requires
        lo <= mid <= hi,
    ensures
        matched(iter, lo, hi) == matched(iter, lo, mid) + matched(iter, mid, hi),
    decreases mid - lo,
{
    if lo < mid {
        lemma_matched_split(iter, lo + 1, mid, hi);
        assert(matched(iter, lo, hi) =~= matched(iter, lo, mid) + matched(iter, mid, hi));
    } else {
        assert(matched(iter, lo, hi) =~= matched(iter, lo, mid) + matched(iter, mid, hi));
    }
}

/// A range without values has no matches.
pub proof fn lemma_matched_empty<J: Join>(iter: J, lo: int, hi: int)
    requires
        empty_between(iter, lo, hi),
    ensures
        matched(iter, lo, hi) == Seq::<int>::empty(),
    decreases hi - lo,
{
    if lo < hi {
        assert(iter.value_at(lo) is None);
        lemma_matched_empty(iter, lo + 1, hi);
    }
}

/// Where nothing is held before position `p` and later positions hold the
/// same in `after` as in `before`, the matches of `before` from `lo` on are
/// `p`, if it holds a value, and then the matches of `after` past `p`.
pub proof fn lemma_matched_step<J: Join>(before: J, after: J, lo: int, p: int, hi: int)
    requires
        lo <= p < hi,
        empty_between(before, lo, p),
        forall|q: int|
            #![trigger after.value_at(q)]
            #![trigger before.value_at(q)]
            q > p ==> after.value_at(q) == before.value_at(q),
    ensures
        matched(before, lo, hi) == (if before.value_at(p) is Some {
            seq![p] + matched(after, p + 1, hi)
        } else {
            matched(after, p + 1, hi)
        }),
{
    lemma_matched_split(before, lo, p, hi);
    lemma_matched_empty(before, lo, p);
    lemma_matched_same(before, after, p + 1, hi);
    assert(Seq::<int>::empty() + matched(before, p, hi) =~= matched(before, p, hi));
}

/// The driver of a join: a strategy, the position it has reached, and the
/// bound at which the join ends.
pub struct Joined<T> {
    /// The strategy that is walked.
    pub iter: T,
    /// The bound: the join ends when the position reaches it.
    pub len: usize,
    /// The position reached.
    pub pos: usize,
}

impl<T: Join> Joined<T> {
    /// The position at which the join ends.
    pub open spec fn bound(&self) -> int {
        self.len as int
    }

    /// The position the driver has reached.
    pub open spec fn cursor(&self) -> int {
        self.pos as int
    }

    /// The driver and its strategy agree on the position, unless the join
    /// has ended.
    pub open spec fn wf(&self) -> bool {
        &&& self.iter.wf()
        &&& 0 <= self.cursor() <= self.bound() <= usize::MAX
        &&& self.cursor() < self.bound() ==> self.iter.cursor() == self.cursor()
    }

    /// The positions that the join has still to yield, in the order in which
    /// it yields them.
    pub open spec fn remaining(&self) -> Seq<int> {
        matched(self.iter, self.cursor(), self.bound())
    }

    /// A driver at position 0 over `iter`, which ends at position `len`.
    pub fn new(iter: T, len: usize) -> (j: Self)
        ensures
            j.iter == iter,
            j.bound() == len,
            j.cursor() == 0,
    {
        Self { iter, len, pos: 0 }
    }

    /// Hands out the next match: the value at the first position from the
    /// cursor on, below the bound, at which the strategy holds one. Without
    /// such a position the join has ended, and stays ended.
    pub fn next(&mut self) -> (item: Option<T::Item>)
        requires
            old(self).wf(),
        ensures
            final(self).wf(),
            final(self).bound() == old(self).bound(),
            old(self).cursor() <= final(self).cursor(),
            forall|q: int|
                #![trigger final(self).iter.value_at(q)]
                #![trigger old(self).iter.value_at(q)]
                q >= final(self).cursor() ==> final(self).iter.value_at(q) == old(
                    self,
                ).iter.value_at(q),
            match item {
                Some(i) => {
                    let p = final(self).cursor() - 1;
                    &&& old(self).cursor() <= p
                    &&& empty_between(old(self).iter, old(self).cursor(), p)
                    &&& old(self).iter.value_at(p) == Some(T::value_of(i))
                    &&& old(self).remaining() == seq![p] + final(self).remaining()
                },
                None => {
                    &&& final(self).cursor() == old(self).bound()
                    &&& empty_between(old(self).iter, old(self).cursor(), old(self).bound())
                    &&& old(self).remaining() == Seq::<int>::empty()
                    &&& final(self).remaining() == Seq::<int>::empty()
                },
            },
    {
        while self.pos < self.len
            invariant
                self.wf(),
                self.len == old(self).len,
                old(self).pos <= self.pos,
                empty_between(old(self).iter, old(self).cursor(), self.cursor()),
                forall|q: int|
                    #![trigger self.iter.value_at(q)]
                    #![trigger old(self).iter.value_at(q)]
                    q >= self.cursor() ==> self.iter.value_at(q) == old(self).iter.value_at(q),
            decreases self.len - self.pos,
        {
            proof {
                self.iter.lemma_in_reach(0);
            }
            let hint = self.iter.may_skip(self.pos);
            if hint >= self.len - self.pos {
                self.pos = self.len;
            } else {
                proof {
                    self.iter.lemma_in_reach(hint as int);
                }
                self.pos += hint;
                let found = self.iter.nth(hint);
                self.pos += 1;
                if let Some(item) = found {
                    proof {
                        lemma_matched_step(
                            old(self).iter,
                            self.iter,
                            old(self).cursor(),
                            self.cursor() - 1,
                            self.bound(),
                        );
                    }
                    return Some(item);
                }
            }
        }
        proof {
            lemma_matched_empty(old(self).iter, old(self).cursor(), old(self).bound());
        }
        None
    }

    /// Walks the join to its end and returns what it yields, in order: the
    /// values at the remaining positions, and nothing else. A join without an
    /// end of its own, such as one over [`Entities`] alone, is walked up to
    /// `usize::MAX`.
    pub fn collect(self) -> (items: Vec<T::Item>)
        requires
            self.wf(),
        ensures
            items@.len() == self.remaining().len(),
            forall|i: int|
                0 <= i < items@.len() ==> self.iter.value_at(self.remaining()[i]) == Some(
                    T::value_of(#[trigger] items@[i]),
                ),
    {
        let mut joined = self;
        let mut items: Vec<T::Item> = Vec::new();
        let ghost mut found: Seq<int> = Seq::empty();
        loop
            invariant
                joined.wf(),
                forall|q: int|
                    #![trigger joined.iter.value_at(q)]
                    #![trigger self.iter.value_at(q)]
                    q >= joined.cursor() ==> joined.iter.value_at(q) == self.iter.value_at(q),
                self.remaining() == found + joined.remaining(),
                found.len() == items@.len(),
                forall|i: int|
                    0 <= i < items@.len() ==> self.iter.value_at(found[i]) == Some(
                        T::value_of(#[trigger] items@[i]),
                    ),
            ensures
                found == self.remaining(),
                found.len() == items@.len(),
                forall|i: int|
                    0 <= i < items@.len() ==> self.iter.value_at(found[i]) == Some(
                        T::value_of(#[trigger] items@[i]),
                    ),
            decreases joined.bound() - joined.cursor(),
        {
            let ghost before = joined;
            match joined.next() {
                Some(item) => {
                    proof {
                        let p = joined.cursor() - 1;
                        assert(self.iter.value_at(p) == before.iter.value_at(p));
                        assert(found + (seq![p] + joined.remaining()) =~= found.push(p)
                            + joined.remaining());
                        found = found.push(p);
                    }
                    items.push(item);
                },
                None => {
                    assert(found + Seq::<int>::empty() =~= found);
                    break ;
                },
            }
        }
        items
    }
}

impl<T: Clone> Clone for Joined<T> {
    /// A driver at the same position, with the same bound, over a copy of
    /// the strategy.
    fn clone(&self) -> (copy: Self)
        ensures
            cloned(self.iter, copy.iter),
            copy.len == self.len,
            copy.pos == self.pos,
    {
        Self { iter: self.iter.clone(), len: self.len, pos: self.pos }
    }
}

/// A source that a join can walk: a storage, a wrapper around one, or a
/// tuple of sources.
pub trait Joinable: Sized {
    /// The strategy that walks the source.
    type Joined: Join<Item = Self::Item>;

    /// What the join hands out for each match.
    type Item;

    /// The source has not been walked yet.
    spec fn ready(self) -> bool;

    /// The upper bound of the source: no position at or after it holds a
    /// value. A source without an end of its own reports `usize::MAX`.
    spec fn bound(self) -> int;

    /// The value the source holds for position `p`.
    spec fn source_at(self, p: int) -> Option<<Self::Joined as Join>::Value>;

    /// Starts a join over the source, at position 0.
    fn join(self) -> (j: Joined<Self::Joined>)
        requires
            self.ready(),
        ensures
            j.wf(),
            j.cursor() == 0,
            j.iter.cursor() == 0,
            j.bound() == self.bound(),
            forall|p: int| 0 <= p ==> #[trigger] j.iter.value_at(p) == self.source_at(p),
            forall|p: int|
                self.bound() <= p < usize::MAX ==> (#[trigger] self.source_at(p)) is None,
    ;

    /// Wraps the source so that a join reads it without asking for presence:
    /// the result holds, at every position, what the source holds there or
    /// `None` in its place.
    fn maybe(self) -> (m: Maybe<Self::Joined>)
        requires
            self.ready(),
        ensures
            m.0.wf(),
            m.0.cursor() == 0,
            forall|p: int| 0 <= p ==> #[trigger] m.0.value_at(p) == self.source_at(p),
    ;
}

/// A reference to a shared reference joins as the shared reference does.
impl<'a, T> Joinable for &'a &T where &'a T: Joinable {
    type Joined = <&'a T as Joinable>::Joined;

    type Item = <&'a T as Joinable>::Item;

    open spec fn ready(self) -> bool {
        <&'a T as Joinable>::ready(*self)
    }

    open spec fn bound(self) -> int {
        <&'a T as Joinable>::bound(*self)
    }

    open spec fn source_at(self, p: int) -> Option<<Self::Joined as Join>::Value> {
        <&'a T as Joinable>::source_at(*self, p)
    }

    fn join(self) -> (j: Joined<Self::Joined>) {
        <&T>::join(self)
    }

    fn maybe(self) -> (m: Maybe<Self::Joined>) {
        <&T>::maybe(self)
    }
}

/// A shared reference to an exclusive one joins as a shared reference does.
impl<'a, T> Joinable for &'a &mut T where &'a T: Joinable {
    type Joined = <&'a T as Joinable>::Joined;

    type Item = <&'a T as Joinable>::Item;

    open spec fn ready(self) -> bool {
        <&'a T as Joinable>::ready(&**self)
    }

    open spec fn bound(self) -> int {
        <&'a T as Joinable>::bound(&**self)
    }

    open spec fn source_at(self, p: int) -> Option<<Self::Joined as Join>::Value> {
        <&'a T as Joinable>::source_at(&**self, p)
    }

    fn join(self) -> (j: Joined<Self::Joined>) {
        <&T>::join(self)
    }

    fn maybe(self) -> (m: Maybe<Self::Joined>) {
        <&T>::maybe(self)
    }
}

} // verus!
