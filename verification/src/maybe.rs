//! Reading a source without asking for presence.

use crate::{Join, Joinable, Joined};
use vstd::prelude::*;

verus! {

/// A strategy that holds a value at every position: what the wrapped
/// strategy holds there, or `None` in its place. In a join it never causes a
/// gap and never ends the join. It is made by [`Joinable::maybe`].
pub struct Maybe<T>(pub T);

impl<T> Maybe<T> {
    pub(crate) fn new(inner: T) -> (m: Self)
        ensures
            m.0 == inner,
    {
        Maybe(inner)
    }
}

impl<T: Join> Join for Maybe<T> {
    type Item = Option<T::Item>;

    type Value = Option<T::Value>;

    open spec fn wf(&self) -> bool {
        self.0.wf()
    }

    open spec fn cursor(&self) -> int {
        self.0.cursor()
    }

    open spec fn value_at(&self, p: int) -> Option<Option<T::Value>> {
        Some(self.0.value_at(p))
    }

    open spec fn may_ask(&self, curr: int) -> bool {
        curr == self.cursor()
    }

    open spec fn skip_from(&self, curr: int) -> int {
        0
    }

    open spec fn can_pull(&self, n: int) -> bool {
        self.0.can_pull(n)
    }

    proof fn lemma_in_reach(&self, n: int) {
        self.0.lemma_in_reach(n);
    }

    open spec fn value_of(item: Option<T::Item>) -> Option<T::Value> {
        match item {
            Some(i) => Some(T::value_of(i)),
            None => None,
        }
    }

    /// Always 0: every position holds a value. The wrapped strategy is not
    /// asked, and so stays where it stands.
    fn may_skip(&mut self, _curr: usize) -> (hint: usize)
        ensures
            *final(self) == *old(self),
    {
        0
    }

    fn next(&mut self) -> (item: Option<Option<T::Item>>) {
        Some(self.0.next())
    }

    fn nth(&mut self, n: usize) -> (item: Option<Option<T::Item>>) {
        Some(self.0.nth(n))
    }
}

impl<T: Join> Joinable for Maybe<T> {
    type Joined = Maybe<T>;

    type Item = Option<T::Item>;

    open spec fn ready(self) -> bool {
        self.0.wf() && self.0.cursor() == 0
    }

    open spec fn bound(self) -> int {
        usize::MAX as int
    }

    open spec fn source_at(self, p: int) -> Option<Option<T::Value>> {
        Some(self.0.value_at(p))
    }

    /// Joins without an end: the bound is `usize::MAX`.
    fn join(self) -> (j: Joined<Maybe<T>>)
        ensures
            j.iter == self,
    {
        Joined::new(self, usize::MAX)
    }

    fn maybe(self) -> (m: Maybe<Maybe<T>>) {
        Maybe::new(self.join().iter)
    }
}

} // verus!
