//! A source that hands out the identifier of each position.

use crate::{Entity, Join, Joinable, Joined, Maybe};
use vstd::prelude::*;

verus! {

/// A source that holds, for every position, the identifier with that number.
/// It has no end of its own.
pub struct Entities;

/// The strategy of [`Entities`]: a counter.
#[derive(Debug)]
pub struct EntitiesIter(usize);

impl Clone for EntitiesIter {
    fn clone(&self) -> (copy: Self)
        ensures
            copy == *self,
    {
        EntitiesIter(self.0)
    }
}

impl EntitiesIter {
    /// The number the counter stands at.
    pub closed spec fn count(&self) -> int {
        self.0 as int
    }
}

impl Join for EntitiesIter {
    type Item = Entity;

    type Value = Entity;

    open spec fn wf(&self) -> bool {
        0 <= self.count() <= usize::MAX
    }

    open spec fn cursor(&self) -> int {
        self.count()
    }

    open spec fn value_at(&self, p: int) -> Option<Entity> {
        if 0 <= p <= usize::MAX {
            Some(Entity(p as usize))
        } else {
            None
        }
    }

    open spec fn value_of(item: Entity) -> Entity {
        item
    }

    open spec fn may_ask(&self, curr: int) -> bool {
        true
    }

    open spec fn skip_from(&self, curr: int) -> int {
        0
    }

    open spec fn can_pull(&self, n: int) -> bool {
        self.cursor() + n < usize::MAX
    }

    proof fn lemma_in_reach(&self, n: int) {
    }

    /// Always 0: every position holds a value. The counter moves to `curr`,
    /// so that the next pull hands out the identifier of the position it
    /// reads.
    fn may_skip(&mut self, curr: usize) -> (hint: usize) {
        self.0 = curr;
        0
    }

    fn next(&mut self) -> (item: Option<Entity>) {
        let entity = Entity(self.0);
        self.0 = self.0 + 1;
        Some(entity)
    }

    fn nth(&mut self, n: usize) -> (item: Option<Entity>) {
        self.0 = self.0 + n;
        self.next()
    }
}

impl Joinable for Entities {
    type Joined = EntitiesIter;

    type Item = Entity;

    open spec fn ready(self) -> bool {
        true
    }

    open spec fn bound(self) -> int {
        usize::MAX as int
    }

    open spec fn source_at(self, p: int) -> Option<Entity> {
        if 0 <= p <= usize::MAX {
            Some(Entity(p as usize))
        } else {
            None
        }
    }

    /// Joins without an end: the bound is `usize::MAX`.
    fn join(self) -> (j: Joined<EntitiesIter>) {
        Joined::new(EntitiesIter(0), usize::MAX)
    }

    fn maybe(self) -> (m: Maybe<EntitiesIter>) {
        Maybe::new(self.join().iter)
    }
}

} // verus!
