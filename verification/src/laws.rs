//! Laws of joins: what holds of every storage and of every source, stated
//! over the positions a join has still to yield.

use crate::not::{NegatedIter, NegatedSparseIter, NegatedSparseStorage, NegatedStorage};
use crate::sparse::{
    first_from, is_first_from, lemma_first_from_is, lemma_first_from_none, lemma_gap_empty,
};
use crate::storage::{grown, lemma_run_holds, run};
use crate::tuple::TupleJoin;
use crate::{
    empty_between, lemma_matched_empty, lemma_matched_exact, lemma_matched_same,
    lemma_matched_split, matched, Entity, Iter, Join, Joinable, Joined, Maybe, SparseIter,
    SparseStorage, Storage,
};
use vstd::prelude::*;

verus! {

/// What `join` promises of the driver `j` that it returns for `source`: the
/// driver stands at position 0, ends at the bound of the source, and walks a
/// strategy that holds what the source holds.
pub open spec fn started<S: Joinable>(source: S, j: Joined<S::Joined>) -> bool {
    &&& j.wf()
    &&& j.cursor() == 0
    &&& j.iter.cursor() == 0
    &&& j.bound() == source.bound()
    &&& forall|p: int| 0 <= p ==> #[trigger] j.iter.value_at(p) == source.source_at(p)
    &&& forall|p: int|
        source.bound() <= p < usize::MAX ==> (#[trigger] source.source_at(p)) is None
}

/// The bound of a source cuts nothing off: a join that has just started has
/// the matches of all of `0..usize::MAX` to yield.
pub proof fn lemma_bound_cuts_nothing<S: Joinable>(source: S, j: Joined<S::Joined>)
    requires
        started(source, j),
    ensures
        j.remaining() == matched(j.iter, 0, usize::MAX as int),
{
    assert(empty_between(j.iter, j.bound(), usize::MAX as int)) by {
        assert forall|q: int| j.bound() <= q < usize::MAX implies (#[trigger] j.iter.value_at(
            q,
        )) is None by {
            assert(source.source_at(q) is None);
        }
    }
    lemma_matched_split(j.iter, 0, j.bound(), usize::MAX as int);
    lemma_matched_empty(j.iter, j.bound(), usize::MAX as int);
    assert(matched(j.iter, 0, j.bound()) + Seq::<int>::empty() =~= matched(j.iter, 0, j.bound()));
}

/// A join yields exactly the identifiers at which its source holds a value,
/// each once, in ascending order, and nothing else. (Identifiers are the
/// positions below `usize::MAX`.) For a tuple of sources these are the
/// identifiers at which every member holds a value.
pub proof fn lemma_join_yields<S: Joinable>(source: S, j: Joined<S::Joined>)
    requires
        started(source, j),
    ensures
        forall|p: int|
            0 <= p < usize::MAX ==> (j.remaining().contains(p) <==> (#[trigger] source.source_at(
                p,
            )) is Some),
        forall|i: int, k: int|
            0 <= i < k < j.remaining().len() ==> j.remaining()[i] < j.remaining()[k],
        forall|i: int|
            0 <= i < j.remaining().len() ==> 0 <= #[trigger] j.remaining()[i] < usize::MAX,
{
    lemma_bound_cuts_nothing(source, j);
    lemma_matched_exact(j.iter, 0, usize::MAX as int);
    assert forall|p: int| 0 <= p < usize::MAX implies (j.remaining().contains(p) <==> (
    #[trigger] source.source_at(p)) is Some) by {
        assert(j.iter.value_at(p) == source.source_at(p));
    }
}

/// A join over two sources yields exactly the identifiers at which each
/// of them holds a value, in ascending order, and ends at the smallest of
/// their bounds.
pub proof fn lemma_join_of_two_yields<A, B>(
    a: A,
    b: B,
    j: Joined<TupleJoin<(A::Joined, B::Joined)>>,
) where
    A: Joinable,
    B: Joinable,

    requires
        started((a, b), j),
    ensures
        forall|p: int|
            0 <= p < usize::MAX ==> (#[trigger] j.remaining().contains(p) <==> {
                &&& a.source_at(p) is Some
                &&& b.source_at(p) is Some
            }),
        forall|i: int, k: int|
            0 <= i < k < j.remaining().len() ==> j.remaining()[i] < j.remaining()[k],
        j.bound() <= a.bound(),
        j.bound() <= b.bound(),
        j.bound() == a.bound() || j.bound() == b.bound(),
{
    let source = (a, b);
    lemma_join_yields(source, j);
    assert forall|p: int| 0 <= p < usize::MAX implies (#[trigger] j.remaining().contains(p) <==> {
        &&& a.source_at(p) is Some
        &&& b.source_at(p) is Some
    }) by {
        assert(j.remaining().contains(p) <==> source.source_at(p) is Some);
    }
}

/// A join over three sources yields exactly the identifiers at which each
/// of them holds a value, in ascending order, and ends at the smallest of
/// their bounds.
pub proof fn lemma_join_of_three_yields<A, B, C>(
    a: A,
    b: B,
    c: C,
    j: Joined<TupleJoin<(A::Joined, B::Joined, C::Joined)>>,
) where
    A: Joinable,
    B: Joinable,
    C: Joinable,

    requires
        started((a, b, c), j),
    ensures
        forall|p: int|
            0 <= p < usize::MAX ==> (#[trigger] j.remaining().contains(p) <==> {
                &&& a.source_at(p) is Some
                &&& b.source_at(p) is Some
                &&& c.source_at(p) is Some
            }),
        forall|i: int, k: int|
            0 <= i < k < j.remaining().len() ==> j.remaining()[i] < j.remaining()[k],
        j.bound() <= a.bound(),
        j.bound() <= b.bound(),
        j.bound() <= c.bound(),
        j.bound() == a.bound() || j.bound() == b.bound() || j.bound() == c.bound(),
{
    let source = (a, b, c);
    lemma_join_yields(source, j);
    assert forall|p: int| 0 <= p < usize::MAX implies (#[trigger] j.remaining().contains(p) <==> {
        &&& a.source_at(p) is Some
        &&& b.source_at(p) is Some
        &&& c.source_at(p) is Some
    }) by {
        assert(j.remaining().contains(p) <==> source.source_at(p) is Some);
    }
}

/// A join over four sources yields exactly the identifiers at which each
/// of them holds a value, in ascending order, and ends at the smallest of
/// their bounds.
pub proof fn lemma_join_of_four_yields<A, B, C, D>(
    a: A,
    b: B,
    c: C,
    d: D,
    j: Joined<TupleJoin<(A::Joined, B::Joined, C::Joined, D::Joined)>>,
) where
    A: Joinable,
    B: Joinable,
    C: Joinable,
    D: Joinable,

    requires
        started((a, b, c, d), j),
    ensures
        forall|p: int|
            0 <= p < usize::MAX ==> (#[trigger] j.remaining().contains(p) <==> {
                &&& a.source_at(p) is Some
                &&& b.source_at(p) is Some
                &&& c.source_at(p) is Some
                &&& d.source_at(p) is Some
            }),
        forall|i: int, k: int|
            0 <= i < k < j.remaining().len() ==> j.remaining()[i] < j.remaining()[k],
        j.bound() <= a.bound(),
        j.bound() <= b.bound(),
        j.bound() <= c.bound(),
        j.bound() <= d.bound(),
        j.bound() == a.bound()
            || j.bound() == b.bound()
            || j.bound() == c.bound()
            || j.bound() == d.bound(),
{
    let source = (a, b, c, d);
    lemma_join_yields(source, j);
    assert forall|p: int| 0 <= p < usize::MAX implies (#[trigger] j.remaining().contains(p) <==> {
        &&& a.source_at(p) is Some
        &&& b.source_at(p) is Some
        &&& c.source_at(p) is Some
        &&& d.source_at(p) is Some
    }) by {
        assert(j.remaining().contains(p) <==> source.source_at(p) is Some);
    }
}

/// A join over five sources yields exactly the identifiers at which each
/// of them holds a value, in ascending order, and ends at the smallest of
/// their bounds.
pub proof fn lemma_join_of_five_yields<A, B, C, D, E>(
    a: A,
    b: B,
    c: C,
    d: D,
    e: E,
    j: Joined<TupleJoin<(A::Joined, B::Joined, C::Joined, D::Joined, E::Joined)>>,
) where
    A: Joinable,
    B: Joinable,
    C: Joinable,
    D: Joinable,
    E: Joinable,

    requires
        started((a, b, c, d, e), j),
    ensures
        forall|p: int|
            0 <= p < usize::MAX ==> (#[trigger] j.remaining().contains(p) <==> {
                &&& a.source_at(p) is Some
                &&& b.source_at(p) is Some
                &&& c.source_at(p) is Some
                &&& d.source_at(p) is Some
                &&& e.source_at(p) is Some
            }),
        forall|i: int, k: int|
            0 <= i < k < j.remaining().len() ==> j.remaining()[i] < j.remaining()[k],
        j.bound() <= a.bound(),
        j.bound() <= b.bound(),
        j.bound() <= c.bound(),
        j.bound() <= d.bound(),
        j.bound() <= e.bound(),
        j.bound() == a.bound()
            || j.bound() == b.bound()
            || j.bound() == c.bound()
            || j.bound() == d.bound()
            || j.bound() == e.bound(),
{
    let source = (a, b, c, d, e);
    lemma_join_yields(source, j);
    assert forall|p: int| 0 <= p < usize::MAX implies (#[trigger] j.remaining().contains(p) <==> {
        &&& a.source_at(p) is Some
        &&& b.source_at(p) is Some
        &&& c.source_at(p) is Some
        &&& d.source_at(p) is Some
        &&& e.source_at(p) is Some
    }) by {
        assert(j.remaining().contains(p) <==> source.source_at(p) is Some);
    }
}

/// A join over six sources yields exactly the identifiers at which each
/// of them holds a value, in ascending order, and ends at the smallest of
/// their bounds.
pub proof fn lemma_join_of_six_yields<A, B, C, D, E, F>(
    a: A,
    b: B,
    c: C,
    d: D,
    e: E,
    f: F,
    j: Joined<TupleJoin<(A::Joined, B::Joined, C::Joined, D::Joined, E::Joined, F::Joined)>>,
) where
    A: Joinable,
    B: Joinable,
    C: Joinable,
    D: Joinable,
    E: Joinable,
    F: Joinable,

    requires
        started((a, b, c, d, e, f), j),
    ensures
        forall|p: int|
            0 <= p < usize::MAX ==> (#[trigger] j.remaining().contains(p) <==> {
                &&& a.source_at(p) is Some
                &&& b.source_at(p) is Some
                &&& c.source_at(p) is Some
                &&& d.source_at(p) is Some
                &&& e.source_at(p) is Some
                &&& f.source_at(p) is Some
            }),
        forall|i: int, k: int|
            0 <= i < k < j.remaining().len() ==> j.remaining()[i] < j.remaining()[k],
        j.bound() <= a.bound(),
        j.bound() <= b.bound(),
        j.bound() <= c.bound(),
        j.bound() <= d.bound(),
        j.bound() <= e.bound(),
        j.bound() <= f.bound(),
        j.bound() == a.bound()
            || j.bound() == b.bound()
            || j.bound() == c.bound()
            || j.bound() == d.bound()
            || j.bound() == e.bound()
            || j.bound() == f.bound(),
{
    let source = (a, b, c, d, e, f);
    lemma_join_yields(source, j);
    assert forall|p: int| 0 <= p < usize::MAX implies (#[trigger] j.remaining().contains(p) <==> {
        &&& a.source_at(p) is Some
        &&& b.source_at(p) is Some
        &&& c.source_at(p) is Some
        &&& d.source_at(p) is Some
        &&& e.source_at(p) is Some
        &&& f.source_at(p) is Some
    }) by {
        assert(j.remaining().contains(p) <==> source.source_at(p) is Some);
    }
}

/// What a dense strategy reports as skippable is the run of absent slots at
/// its cursor: no position in the skipped range holds a value.
pub proof fn lemma_dense_skip_sound<'a, T>(iter: Iter<'a, T>)
    requires
        iter.wf(),
    ensures
        iter.skip_from(iter.cursor()) == run(iter.rest(), 0, false),
        0 <= iter.skip_from(iter.cursor()) <= iter.rest().len(),
        empty_between(iter, iter.cursor(), iter.cursor() + iter.skip_from(iter.cursor())),
{
    lemma_run_holds(iter.rest(), 0, false);
}

/// What a sparse strategy reports as skippable from a position `p` is the
/// distance from `p` to the first key at or after it, or `usize::MAX` where
/// no key is left; no position in the skipped range holds a value. This
/// holds of every position, wherever the cursor stands.
pub proof fn lemma_sparse_skip_exact<'a, T>(iter: SparseIter<'a, T>, p: int)
    requires
        0 <= p,
    ensures
        iter.skip_from(p) == (match first_from(iter.entries().dom(), p) {
            Some(k) => k - p,
            None => usize::MAX as int,
        }),
        empty_between(iter, p, p + iter.skip_from(p)),
{
    lemma_gap_empty(iter.entries().dom(), p);
    assert forall|q: int| p <= q < p + iter.skip_from(p) implies (#[trigger] iter.value_at(
        q,
    )) is None by {
        if 0 <= q <= usize::MAX {
            assert(!iter.entries().dom().contains(q as usize));
        }
    }
}

/// The hint of a sparse strategy, by the key it stops at: where `k` is the
/// first key at or after `p`, the hint from `p` is `k - p`; where no key is
/// at or after `p`, it is `usize::MAX`.
pub proof fn lemma_sparse_skip_to<'a, T>(iter: SparseIter<'a, T>, p: int, k: usize)
    ensures
        is_first_from(iter.entries().dom(), p, k) ==> iter.skip_from(p) == k - p,
        (forall|j: usize| iter.entries().contains_key(j) ==> j < p) ==> iter.skip_from(p)
            == usize::MAX,
{
    if is_first_from(iter.entries().dom(), p, k) {
        lemma_first_from_is(iter.entries().dom(), p, k);
    }
    if forall|j: usize| iter.entries().contains_key(j) ==> j < p {
        lemma_first_from_none(iter.entries().dom(), p);
    }
}

/// A dense and a sparse storage hold the same: under every identifier the
/// same value, or none in both.
pub open spec fn agree<T>(dense: Storage<T>, sparse: SparseStorage<T>) -> bool {
    forall|p: int|
        #![trigger dense.at(p)]
        #![trigger sparse.at(p)]
        dense.at(p) == sparse.at(p)
}

/// Two empty storages agree, whatever number of slots the dense one keeps.
pub proof fn lemma_empty_agree<T>(dense: Storage<T>, sparse: SparseStorage<T>)
    requires
        forall|i: int| 0 <= i < dense.slots().len() ==> (#[trigger] dense.slots()[i]) is None,
        sparse.entries() == Map::<usize, T>::empty(),
    ensures
        agree(dense, sparse),
{
}

/// Storages that agree answer `get` alike.
pub proof fn lemma_get_agrees<T>(dense: Storage<T>, sparse: SparseStorage<T>, idx: Entity)
    requires
        agree(dense, sparse),
    ensures
        dense.at(idx.0 as int) == sparse.at(idx.0 as int),
{
}

/// Storages that agree still agree after the same insertion into both, and
/// both return the same prior value.
pub proof fn lemma_insert_agrees<T>(
    dense: Storage<T>,
    sparse: SparseStorage<T>,
    dense_after: Storage<T>,
    sparse_after: SparseStorage<T>,
    idx: Entity,
    c: T,
)
    requires
        agree(dense, sparse),
        idx.0 < usize::MAX,
        dense_after.slots() == grown(dense.slots(), idx.0 + 1).update(idx.0 as int, Some(c)),
        sparse_after.entries() == sparse.entries().insert(idx.0, c),
    ensures
        agree(dense_after, sparse_after),
        dense.at(idx.0 as int) == sparse.at(idx.0 as int),
{
    assert forall|p: int| dense_after.at(p) == sparse_after.at(p) by {
        assert(dense.at(p) == sparse.at(p));
    }
}

/// Storages that agree still agree after the same removal from both, and
/// both return the same value.
pub proof fn lemma_remove_agrees<T>(
    dense: Storage<T>,
    sparse: SparseStorage<T>,
    dense_after: Storage<T>,
    sparse_after: SparseStorage<T>,
    idx: Entity,
)
    requires
        agree(dense, sparse),
        dense_after.slots() == (if idx.0 < dense.slots().len() {
            dense.slots().update(idx.0 as int, None)
        } else {
            dense.slots()
        }),
        sparse_after.entries() == sparse.entries().remove(idx.0),
    ensures
        agree(dense_after, sparse_after),
        dense.at(idx.0 as int) == sparse.at(idx.0 as int),
{
    assert forall|p: int| dense_after.at(p) == sparse_after.at(p) by {
        assert(dense.at(p) == sparse.at(p));
    }
}

/// After `clear`, a dense and a sparse storage agree, whatever they held.
pub proof fn lemma_clear_agrees<T>(
    dense: Storage<T>,
    dense_after: Storage<T>,
    sparse_after: SparseStorage<T>,
)
    requires
        dense_after.slots() == Seq::new(dense.slots().len(), |i: int| None::<T>),
        sparse_after.entries() == Map::<usize, T>::empty(),
    ensures
        agree(dense_after, sparse_after),
{
}

/// Storages that agree give the same join: the same identifiers in the same
/// order, with the same values.
pub proof fn lemma_join_agrees<'a, T>(
    dense: &'a Storage<T>,
    sparse: &'a SparseStorage<T>,
    jd: Joined<Iter<'a, T>>,
    js: Joined<SparseIter<'a, T>>,
)
    requires
        agree(*dense, *sparse),
        started(dense, jd),
        started(sparse, js),
    ensures
        jd.remaining() == js.remaining(),
        forall|p: int| 0 <= p ==> #[trigger] jd.iter.value_at(p) == js.iter.value_at(p),
{
    lemma_bound_cuts_nothing(dense, jd);
    lemma_bound_cuts_nothing(sparse, js);
    assert forall|p: int| 0 <= p implies #[trigger] jd.iter.value_at(p) == js.iter.value_at(
        p,
    ) by {
        assert(jd.iter.value_at(p) == dense.source_at(p));
        assert(js.iter.value_at(p) == sparse.source_at(p));
        assert(dense.at(p) == sparse.at(p));
    }
    lemma_matched_same(jd.iter, js.iter, 0, usize::MAX as int);
}

/// A dense storage joined with its own negation yields nothing.
pub proof fn lemma_negation_excludes<'a, T>(
    storage: &'a Storage<T>,
    j: Joined<TupleJoin<(Iter<'a, T>, NegatedIter<'a, T>)>>,
)
    requires
        started((storage, NegatedStorage(storage)), j),
    ensures
        j.remaining() == Seq::<int>::empty(),
{
    let source = (storage, NegatedStorage(storage));
    assert forall|q: int| j.cursor() <= q < j.bound() implies (#[trigger] j.iter.value_at(
        q,
    )) is None by {
        assert(j.iter.value_at(q) == source.source_at(q));
    }
    lemma_matched_empty(j.iter, j.cursor(), j.bound());
}

/// A sparse storage joined with its own negation yields nothing.
pub proof fn lemma_sparse_negation_excludes<'a, T>(
    storage: &'a SparseStorage<T>,
    j: Joined<TupleJoin<(SparseIter<'a, T>, NegatedSparseIter<'a, T>)>>,
)
    requires
        started((storage, NegatedSparseStorage(storage)), j),
    ensures
        j.remaining() == Seq::<int>::empty(),
{
    let source = (storage, NegatedSparseStorage(storage));
    assert forall|q: int| j.cursor() <= q < j.bound() implies (#[trigger] j.iter.value_at(
        q,
    )) is None by {
        assert(j.iter.value_at(q) == source.source_at(q));
    }
    lemma_matched_empty(j.iter, j.cursor(), j.bound());
}

/// The negation of a dense storage joined with itself yields what the
/// negation alone yields.
pub proof fn lemma_negation_twice<'a, T>(
    storage: &'a Storage<T>,
    once: Joined<NegatedIter<'a, T>>,
    twice: Joined<TupleJoin<(NegatedIter<'a, T>, NegatedIter<'a, T>)>>,
)
    requires
        started(NegatedStorage(storage), once),
        started((NegatedStorage(storage), NegatedStorage(storage)), twice),
    ensures
        twice.remaining() == once.remaining(),
{
    let single = NegatedStorage(storage);
    let pair = (NegatedStorage(storage), NegatedStorage(storage));
    assert forall|p: int| 0 <= p < usize::MAX implies ((#[trigger] twice.iter.value_at(p)) is Some
        <==> (#[trigger] once.iter.value_at(p)) is Some) by {
        assert(twice.iter.value_at(p) == pair.source_at(p));
        assert(once.iter.value_at(p) == single.source_at(p));
    }
    lemma_matched_same(twice.iter, once.iter, 0, usize::MAX as int);
}

/// The negation of a sparse storage joined with itself yields what the
/// negation alone yields.
pub proof fn lemma_sparse_negation_twice<'a, T>(
    storage: &'a SparseStorage<T>,
    once: Joined<NegatedSparseIter<'a, T>>,
    twice: Joined<TupleJoin<(NegatedSparseIter<'a, T>, NegatedSparseIter<'a, T>)>>,
)
    requires
        started(NegatedSparseStorage(storage), once),
        started((NegatedSparseStorage(storage), NegatedSparseStorage(storage)), twice),
    ensures
        twice.remaining() == once.remaining(),
{
    let single = NegatedSparseStorage(storage);
    let pair = (NegatedSparseStorage(storage), NegatedSparseStorage(storage));
    assert forall|p: int| 0 <= p < usize::MAX implies ((#[trigger] twice.iter.value_at(p)) is Some
        <==> (#[trigger] once.iter.value_at(p)) is Some) by {
        assert(twice.iter.value_at(p) == pair.source_at(p));
        assert(once.iter.value_at(p) == single.source_at(p));
    }
    lemma_matched_same(twice.iter, once.iter, 0, usize::MAX as int);
}

/// Reading a second source through `maybe` never shortens a join: the pair
/// of a source and an optional one ends where the source alone ends, and
/// yields the same identifiers.
pub proof fn lemma_maybe_keeps<A: Joinable, J: Join>(
    source: A,
    optional: Maybe<J>,
    alone: Joined<A::Joined>,
    paired: Joined<TupleJoin<(A::Joined, Maybe<J>)>>,
)
    requires
        started(source, alone),
        started((source, optional), paired),
    ensures
        paired.bound() == alone.bound(),
        paired.remaining() == alone.remaining(),
{
    let pair = (source, optional);
    assert forall|p: int| 0 <= p < paired.bound() implies ((#[trigger] paired.iter.value_at(
        p,
    )) is Some <==> (#[trigger] alone.iter.value_at(p)) is Some) by {
        assert(paired.iter.value_at(p) == pair.source_at(p));
        assert(alone.iter.value_at(p) == source.source_at(p));
    }
    lemma_matched_same(paired.iter, alone.iter, 0, paired.bound());
}

} // verus!
