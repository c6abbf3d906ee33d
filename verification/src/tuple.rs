//! Joins over tuples of sources: a position matches where every member holds
//! a value.

use crate::{Join, Joinable, Joined, Maybe};
use vstd::pervasive::cloned;
use vstd::prelude::*;

verus! {

/// The strategies of a tuple of sources, walked in lockstep. The tuple holds
/// a value at a position exactly where each member does, and it may skip as
/// far as the member that may skip farthest: the join cannot resume before
/// every member could hold a value.
#[derive(Debug)]
pub struct TupleJoin<T>(pub T);

impl<T: Clone> Clone for TupleJoin<T> {
    /// A clone of the members.
    fn clone(&self) -> (copy: Self)
        ensures
            cloned(self.0, copy.0),
    {
        TupleJoin(self.0.clone())
    }
}

/// The larger of two numbers.
pub open spec fn larger(a: int, b: int) -> int {
    if a >= b {
        a
    } else {
        b
    }
}

/// The smaller of two numbers.
pub open spec fn smaller(a: int, b: int) -> int {
    if a <= b {
        a
    } else {
        b
    }
}

/// Computes the larger of two numbers.
fn larger_of(a: usize, b: usize) -> (m: usize)
    ensures
        m == larger(a as int, b as int),
{
    if a >= b {
        a
    } else {
        b
    }
}

/// Computes the smaller of two numbers.
fn smaller_of(a: usize, b: usize) -> (m: usize)
    ensures
        m == smaller(a as int, b as int),
{
    if a <= b {
        a
    } else {
        b
    }
}

impl<A, B> Join for TupleJoin<(A, B)> where
    A: Join,
    B: Join,
{
    type Item = (A::Item, B::Item);

    type Value = (A::Value, B::Value);

    open spec fn wf(&self) -> bool {
        &&& self.0.0.wf()
        &&& self.0.1.wf()
        &&& self.0.1.cursor() == self.0.0.cursor()
    }

    open spec fn cursor(&self) -> int {
        self.0.0.cursor()
    }

    open spec fn value_at(&self, p: int) -> Option<Self::Value> {
        match (self.0.0.value_at(p), self.0.1.value_at(p)) {
            (Some(a), Some(b)) => Some((a, b)),
            _ => None,
        }
    }

    open spec fn may_ask(&self, curr: int) -> bool {
        &&& self.0.0.may_ask(curr)
        &&& self.0.1.may_ask(curr)
    }

    open spec fn skip_from(&self, curr: int) -> int {
        larger(self.0.0.skip_from(curr), self.0.1.skip_from(curr))
    }

    open spec fn can_pull(&self, n: int) -> bool {
        &&& self.0.0.can_pull(n)
        &&& self.0.1.can_pull(n)
    }

    proof fn lemma_in_reach(&self, n: int) {
        self.0.0.lemma_in_reach(n);
        self.0.1.lemma_in_reach(n);
    }

    open spec fn value_of(item: Self::Item) -> Self::Value {
        (A::value_of(item.0), B::value_of(item.1))
    }

    /// The largest of the members' reports.
    fn may_skip(&mut self, curr: usize) -> (hint: usize) {
        let a = self.0.0.may_skip(curr);
        let b = self.0.1.may_skip(curr);
        larger_of(a, b)
    }

    fn next(&mut self) -> (item: Option<Self::Item>) {
        self.nth(0)
    }

    fn nth(&mut self, n: usize) -> (item: Option<Self::Item>) {
        let a = self.0.0.nth(n);
        let b = self.0.1.nth(n);
        match (a, b) {
            (Some(a), Some(b)) => Some((a, b)),
            _ => None,
        }
    }
}

impl<A, B> Joinable for (A, B) where
    A: Joinable,
    B: Joinable,
{
    type Joined = TupleJoin<(A::Joined, B::Joined)>;

    type Item = (A::Item, B::Item);

    open spec fn ready(self) -> bool {
        &&& self.0.ready()
        &&& self.1.ready()
    }

    open spec fn bound(self) -> int {
        smaller(self.0.bound(), self.1.bound())
    }

    open spec fn source_at(self, p: int) -> Option<<Self::Joined as Join>::Value> {
        match (self.0.source_at(p), self.1.source_at(p)) {
            (Some(a), Some(b)) => Some((a, b)),
            _ => None,
        }
    }

    /// Joins the members in lockstep, up to the smallest of their bounds.
    fn join(self) -> (j: Joined<Self::Joined>) {
        let a = self.0.join();
        let b = self.1.join();
        let len = smaller_of(a.len, b.len);
        Joined::new(TupleJoin((a.iter, b.iter)), len)
    }

    fn maybe(self) -> (m: Maybe<Self::Joined>) {
        Maybe::new(self.join().iter)
    }
}

impl<A, B, C> Join for TupleJoin<(A, B, C)> where
    A: Join,
    B: Join,
    C: Join,
{
    type Item = (A::Item, B::Item, C::Item);

    type Value = (A::Value, B::Value, C::Value);

    open spec fn wf(&self) -> bool {
        &&& self.0.0.wf()
        &&& self.0.1.wf()
        &&& self.0.2.wf()
        &&& self.0.1.cursor() == self.0.0.cursor()
        &&& self.0.2.cursor() == self.0.0.cursor()
    }

    open spec fn cursor(&self) -> int {
        self.0.0.cursor()
    }

    open spec fn value_at(&self, p: int) -> Option<Self::Value> {
        match (self.0.0.value_at(p), self.0.1.value_at(p), self.0.2.value_at(p)) {
            (Some(a), Some(b), Some(c)) => Some((a, b, c)),
            _ => None,
        }
    }

    open spec fn may_ask(&self, curr: int) -> bool {
        &&& self.0.0.may_ask(curr)
        &&& self.0.1.may_ask(curr)
        &&& self.0.2.may_ask(curr)
    }

    open spec fn skip_from(&self, curr: int) -> int {
        let m = larger(self.0.0.skip_from(curr), self.0.1.skip_from(curr));
        larger(m, self.0.2.skip_from(curr))
    }

    open spec fn can_pull(&self, n: int) -> bool {
        &&& self.0.0.can_pull(n)
        &&& self.0.1.can_pull(n)
        &&& self.0.2.can_pull(n)
    }

    proof fn lemma_in_reach(&self, n: int) {
        self.0.0.lemma_in_reach(n);
        self.0.1.lemma_in_reach(n);
        self.0.2.lemma_in_reach(n);
    }

    open spec fn value_of(item: Self::Item) -> Self::Value {
        (A::value_of(item.0), B::value_of(item.1), C::value_of(item.2))
    }

    /// The largest of the members' reports.
    fn may_skip(&mut self, curr: usize) -> (hint: usize) {
        let a = self.0.0.may_skip(curr);
        let b = self.0.1.may_skip(curr);
        let c = self.0.2.may_skip(curr);
        larger_of(larger_of(a, b), c)
    }

    fn next(&mut self) -> (item: Option<Self::Item>) {
        self.nth(0)
    }

    fn nth(&mut self, n: usize) -> (item: Option<Self::Item>) {
        let a = self.0.0.nth(n);
        let b = self.0.1.nth(n);
        let c = self.0.2.nth(n);
        match (a, b, c) {
            (Some(a), Some(b), Some(c)) => Some((a, b, c)),
            _ => None,
        }
    }
}

impl<A, B, C> Joinable for (A, B, C) where
    A: Joinable,
    B: Joinable,
    C: Joinable,
{
    type Joined = TupleJoin<(A::Joined, B::Joined, C::Joined)>;

    type Item = (A::Item, B::Item, C::Item);

    open spec fn ready(self) -> bool {
        &&& self.0.ready()
        &&& self.1.ready()
        &&& self.2.ready()
    }

    open spec fn bound(self) -> int {
        smaller(smaller(self.0.bound(), self.1.bound()), self.2.bound())
    }

    open spec fn source_at(self, p: int) -> Option<<Self::Joined as Join>::Value> {
        match (self.0.source_at(p), self.1.source_at(p), self.2.source_at(p)) {
            (Some(a), Some(b), Some(c)) => Some((a, b, c)),
            _ => None,
        }
    }

    /// Joins the members in lockstep, up to the smallest of their bounds.
    fn join(self) -> (j: Joined<Self::Joined>) {
        let a = self.0.join();
        let b = self.1.join();
        let c = self.2.join();
        let len = smaller_of(a.len, b.len);
        let len = smaller_of(len, c.len);
        Joined::new(TupleJoin((a.iter, b.iter, c.iter)), len)
    }

    fn maybe(self) -> (m: Maybe<Self::Joined>) {
        Maybe::new(self.join().iter)
    }
}

impl<A, B, C, D> Join for TupleJoin<(A, B, C, D)> where
    A: Join,
    B: Join,
    C: Join,
    D: Join,
{
    type Item = (A::Item, B::Item, C::Item, D::Item);

    type Value = (A::Value, B::Value, C::Value, D::Value);

    open spec fn wf(&self) -> bool {
        &&& self.0.0.wf()
        &&& self.0.1.wf()
        &&& self.0.2.wf()
        &&& self.0.3.wf()
        &&& self.0.1.cursor() == self.0.0.cursor()
        &&& self.0.2.cursor() == self.0.0.cursor()
        &&& self.0.3.cursor() == self.0.0.cursor()
    }

    open spec fn cursor(&self) -> int {
        self.0.0.cursor()
    }

    open spec fn value_at(&self, p: int) -> Option<Self::Value> {
        match (
            self.0.0.value_at(p),
            self.0.1.value_at(p),
            self.0.2.value_at(p),
            self.0.3.value_at(p),
        ) {
            (Some(a), Some(b), Some(c), Some(d)) => Some((a, b, c, d)),
            _ => None,
        }
    }

    open spec fn may_ask(&self, curr: int) -> bool {
        &&& self.0.0.may_ask(curr)
        &&& self.0.1.may_ask(curr)
        &&& self.0.2.may_ask(curr)
        &&& self.0.3.may_ask(curr)
    }

    open spec fn skip_from(&self, curr: int) -> int {
        let m = larger(self.0.0.skip_from(curr), self.0.1.skip_from(curr));
        let m = larger(m, self.0.2.skip_from(curr));
        larger(m, self.0.3.skip_from(curr))
    }

    open spec fn can_pull(&self, n: int) -> bool {
        &&& self.0.0.can_pull(n)
        &&& self.0.1.can_pull(n)
        &&& self.0.2.can_pull(n)
        &&& self.0.3.can_pull(n)
    }

    proof fn lemma_in_reach(&self, n: int) {
        self.0.0.lemma_in_reach(n);
        self.0.1.lemma_in_reach(n);
        self.0.2.lemma_in_reach(n);
        self.0.3.lemma_in_reach(n);
    }

    open spec fn value_of(item: Self::Item) -> Self::Value {
        (A::value_of(item.0), B::value_of(item.1), C::value_of(item.2), D::value_of(item.3))
    }

    /// The largest of the members' reports.
    fn may_skip(&mut self, curr: usize) -> (hint: usize) {
        let a = self.0.0.may_skip(curr);
        let b = self.0.1.may_skip(curr);
        let c = self.0.2.may_skip(curr);
        let d = self.0.3.may_skip(curr);
        larger_of(larger_of(larger_of(a, b), c), d)
    }

    fn next(&mut self) -> (item: Option<Self::Item>) {
        self.nth(0)
    }

    fn nth(&mut self, n: usize) -> (item: Option<Self::Item>) {
        let a = self.0.0.nth(n);
        let b = self.0.1.nth(n);
        let c = self.0.2.nth(n);
        let d = self.0.3.nth(n);
        match (a, b, c, d) {
            (Some(a), Some(b), Some(c), Some(d)) => Some((a, b, c, d)),
            _ => None,
        }
    }
}

impl<A, B, C, D> Joinable for (A, B, C, D) where
    A: Joinable,
    B: Joinable,
    C: Joinable,
    D: Joinable,
{
    type Joined = TupleJoin<(A::Joined, B::Joined, C::Joined, D::Joined)>;

    type Item = (A::Item, B::Item, C::Item, D::Item);

    open spec fn ready(self) -> bool {
        &&& self.0.ready()
        &&& self.1.ready()
        &&& self.2.ready()
        &&& self.3.ready()
    }

    open spec fn bound(self) -> int {
        let m = smaller(self.0.bound(), self.1.bound());
        let m = smaller(m, self.2.bound());
        smaller(m, self.3.bound())
    }

    open spec fn source_at(self, p: int) -> Option<<Self::Joined as Join>::Value> {
        match (
            self.0.source_at(p),
            self.1.source_at(p),
            self.2.source_at(p),
            self.3.source_at(p),
        ) {
            (Some(a), Some(b), Some(c), Some(d)) => Some((a, b, c, d)),
            _ => None,
        }
    }

    /// Joins the members in lockstep, up to the smallest of their bounds.
    fn join(self) -> (j: Joined<Self::Joined>) {
        let a = self.0.join();
        let b = self.1.join();
        let c = self.2.join();
        let d = self.3.join();
        let len = smaller_of(a.len, b.len);
        let len = smaller_of(len, c.len);
        let len = smaller_of(len, d.len);
        Joined::new(TupleJoin((a.iter, b.iter, c.iter, d.iter)), len)
    }

    fn maybe(self) -> (m: Maybe<Self::Joined>) {
        Maybe::new(self.join().iter)
    }
}

impl<A, B, C, D, E> Join for TupleJoin<(A, B, C, D, E)> where
    A: Join,
    B: Join,
    C: Join,
    D: Join,
    E: Join,
{
    type Item = (A::Item, B::Item, C::Item, D::Item, E::Item);

    type Value = (A::Value, B::Value, C::Value, D::Value, E::Value);

    open spec fn wf(&self) -> bool {
        &&& self.0.0.wf()
        &&& self.0.1.wf()
        &&& self.0.2.wf()
        &&& self.0.3.wf()
        &&& self.0.4.wf()
        &&& self.0.1.cursor() == self.0.0.cursor()
        &&& self.0.2.cursor() == self.0.0.cursor()
        &&& self.0.3.cursor() == self.0.0.cursor()
        &&& self.0.4.cursor() == self.0.0.cursor()
    }

    open spec fn cursor(&self) -> int {
        self.0.0.cursor()
    }

    open spec fn value_at(&self, p: int) -> Option<Self::Value> {
        match (
            self.0.0.value_at(p),
            self.0.1.value_at(p),
            self.0.2.value_at(p),
            self.0.3.value_at(p),
            self.0.4.value_at(p),
        ) {
            (Some(a), Some(b), Some(c), Some(d), Some(e)) => Some((a, b, c, d, e)),
            _ => None,
        }
    }

    open spec fn may_ask(&self, curr: int) -> bool {
        &&& self.0.0.may_ask(curr)
        &&& self.0.1.may_ask(curr)
        &&& self.0.2.may_ask(curr)
        &&& self.0.3.may_ask(curr)
        &&& self.0.4.may_ask(curr)
    }

    open spec fn skip_from(&self, curr: int) -> int {
        let m = larger(self.0.0.skip_from(curr), self.0.1.skip_from(curr));
        let m = larger(m, self.0.2.skip_from(curr));
        let m = larger(m, self.0.3.skip_from(curr));
        larger(m, self.0.4.skip_from(curr))
    }

    open spec fn can_pull(&self, n: int) -> bool {
        &&& self.0.0.can_pull(n)
        &&& self.0.1.can_pull(n)
        &&& self.0.2.can_pull(n)
        &&& self.0.3.can_pull(n)
        &&& self.0.4.can_pull(n)
    }

    proof fn lemma_in_reach(&self, n: int) {
        self.0.0.lemma_in_reach(n);
        self.0.1.lemma_in_reach(n);
        self.0.2.lemma_in_reach(n);
        self.0.3.lemma_in_reach(n);
        self.0.4.lemma_in_reach(n);
    }

    open spec fn value_of(item: Self::Item) -> Self::Value {
        (
            A::value_of(item.0),
            B::value_of(item.1),
            C::value_of(item.2),
            D::value_of(item.3),
            E::value_of(item.4),
        )
    }

    /// The largest of the members' reports.
    fn may_skip(&mut self, curr: usize) -> (hint: usize) {
        let a = self.0.0.may_skip(curr);
        let b = self.0.1.may_skip(curr);
        let c = self.0.2.may_skip(curr);
        let d = self.0.3.may_skip(curr);
        let e = self.0.4.may_skip(curr);
        larger_of(larger_of(larger_of(larger_of(a, b), c), d), e)
    }

    fn next(&mut self) -> (item: Option<Self::Item>) {
        self.nth(0)
    }

    fn nth(&mut self, n: usize) -> (item: Option<Self::Item>) {
        let a = self.0.0.nth(n);
        let b = self.0.1.nth(n);
        let c = self.0.2.nth(n);
        let d = self.0.3.nth(n);
        let e = self.0.4.nth(n);
        match (a, b, c, d, e) {
            (Some(a), Some(b), Some(c), Some(d), Some(e)) => Some((a, b, c, d, e)),
            _ => None,
        }
    }
}

impl<A, B, C, D, E> Joinable for (A, B, C, D, E) where
    A: Joinable,
    B: Joinable,
    C: Joinable,
    D: Joinable,
    E: Joinable,
{
    type Joined = TupleJoin<(A::Joined, B::Joined, C::Joined, D::Joined, E::Joined)>;

    type Item = (A::Item, B::Item, C::Item, D::Item, E::Item);

    open spec fn ready(self) -> bool {
        &&& self.0.ready()
        &&& self.1.ready()
        &&& self.2.ready()
        &&& self.3.ready()
        &&& self.4.ready()
    }

    open spec fn bound(self) -> int {
        let m = smaller(self.0.bound(), self.1.bound());
        let m = smaller(m, self.2.bound());
        let m = smaller(m, self.3.bound());
        smaller(m, self.4.bound())
    }

    open spec fn source_at(self, p: int) -> Option<<Self::Joined as Join>::Value> {
        match (
            self.0.source_at(p),
            self.1.source_at(p),
            self.2.source_at(p),
            self.3.source_at(p),
            self.4.source_at(p),
        ) {
            (Some(a), Some(b), Some(c), Some(d), Some(e)) => Some((a, b, c, d, e)),
            _ => None,
        }
    }

    /// Joins the members in lockstep, up to the smallest of their bounds.
    fn join(self) -> (j: Joined<Self::Joined>) {
        let a = self.0.join();
        let b = self.1.join();
        let c = self.2.join();
        let d = self.3.join();
        let e = self.4.join();
        let len = smaller_of(a.len, b.len);
        let len = smaller_of(len, c.len);
        let len = smaller_of(len, d.len);
        let len = smaller_of(len, e.len);
        Joined::new(TupleJoin((a.iter, b.iter, c.iter, d.iter, e.iter)), len)
    }

    fn maybe(self) -> (m: Maybe<Self::Joined>) {
        Maybe::new(self.join().iter)
    }
}

impl<A, B, C, D, E, F> Join for TupleJoin<(A, B, C, D, E, F)> where
    A: Join,
    B: Join,
    C: Join,
    D: Join,
    E: Join,
    F: Join,
{
    type Item = (A::Item, B::Item, C::Item, D::Item, E::Item, F::Item);

    type Value = (A::Value, B::Value, C::Value, D::Value, E::Value, F::Value);

    open spec fn wf(&self) -> bool {
        &&& self.0.0.wf()
        &&& self.0.1.wf()
        &&& self.0.2.wf()
        &&& self.0.3.wf()
        &&& self.0.4.wf()
        &&& self.0.5.wf()
        &&& self.0.1.cursor() == self.0.0.cursor()
        &&& self.0.2.cursor() == self.0.0.cursor()
        &&& self.0.3.cursor() == self.0.0.cursor()
        &&& self.0.4.cursor() == self.0.0.cursor()
        &&& self.0.5.cursor() == self.0.0.cursor()
    }

    open spec fn cursor(&self) -> int {
        self.0.0.cursor()
    }

    open spec fn value_at(&self, p: int) -> Option<Self::Value> {
        match (
            self.0.0.value_at(p),
            self.0.1.value_at(p),
            self.0.2.value_at(p),
            self.0.3.value_at(p),
            self.0.4.value_at(p),
            self.0.5.value_at(p),
        ) {
            (Some(a), Some(b), Some(c), Some(d), Some(e), Some(f)) => Some((a, b, c, d, e, f)),
            _ => None,
        }
    }

    open spec fn may_ask(&self, curr: int) -> bool {
        &&& self.0.0.may_ask(curr)
        &&& self.0.1.may_ask(curr)
        &&& self.0.2.may_ask(curr)
        &&& self.0.3.may_ask(curr)
        &&& self.0.4.may_ask(curr)
        &&& self.0.5.may_ask(curr)
    }

    open spec fn skip_from(&self, curr: int) -> int {
        let m = larger(self.0.0.skip_from(curr), self.0.1.skip_from(curr));
        let m = larger(m, self.0.2.skip_from(curr));
        let m = larger(m, self.0.3.skip_from(curr));
        let m = larger(m, self.0.4.skip_from(curr));
        larger(m, self.0.5.skip_from(curr))
    }

    open spec fn can_pull(&self, n: int) -> bool {
        &&& self.0.0.can_pull(n)
        &&& self.0.1.can_pull(n)
        &&& self.0.2.can_pull(n)
        &&& self.0.3.can_pull(n)
        &&& self.0.4.can_pull(n)
        &&& self.0.5.can_pull(n)
    }

    proof fn lemma_in_reach(&self, n: int) {
        self.0.0.lemma_in_reach(n);
        self.0.1.lemma_in_reach(n);
        self.0.2.lemma_in_reach(n);
        self.0.3.lemma_in_reach(n);
        self.0.4.lemma_in_reach(n);
        self.0.5.lemma_in_reach(n);
    }

    open spec fn value_of(item: Self::Item) -> Self::Value {
        (
            A::value_of(item.0),
            B::value_of(item.1),
            C::value_of(item.2),
            D::value_of(item.3),
            E::value_of(item.4),
            F::value_of(item.5),
        )
    }

    /// The largest of the members' reports.
    fn may_skip(&mut self, curr: usize) -> (hint: usize) {
        let a = self.0.0.may_skip(curr);
        let b = self.0.1.may_skip(curr);
        let c = self.0.2.may_skip(curr);
        let d = self.0.3.may_skip(curr);
        let e = self.0.4.may_skip(curr);
        let f = self.0.5.may_skip(curr);
        larger_of(larger_of(larger_of(larger_of(larger_of(a, b), c), d), e), f)
    }

    fn next(&mut self) -> (item: Option<Self::Item>) {
        self.nth(0)
    }

    fn nth(&mut self, n: usize) -> (item: Option<Self::Item>) {
        let a = self.0.0.nth(n);
        let b = self.0.1.nth(n);
        let c = self.0.2.nth(n);
        let d = self.0.3.nth(n);
        let e = self.0.4.nth(n);
        let f = self.0.5.nth(n);
        match (a, b, c, d, e, f) {
            (Some(a), Some(b), Some(c), Some(d), Some(e), Some(f)) => Some((a, b, c, d, e, f)),
            _ => None,
        }
    }
}

impl<A, B, C, D, E, F> Joinable for (A, B, C, D, E, F) where
    A: Joinable,
    B: Joinable,
    C: Joinable,
    D: Joinable,
    E: Joinable,
    F: Joinable,
{
    type Joined = TupleJoin<(A::Joined, B::Joined, C::Joined, D::Joined, E::Joined, F::Joined)>;

    type Item = (A::Item, B::Item, C::Item, D::Item, E::Item, F::Item);

    open spec fn ready(self) -> bool {
        &&& self.0.ready()
        &&& self.1.ready()
        &&& self.2.ready()
        &&& self.3.ready()
        &&& self.4.ready()
        &&& self.5.ready()
    }

    open spec fn bound(self) -> int {
        let m = smaller(self.0.bound(), self.1.bound());
        let m = smaller(m, self.2.bound());
        let m = smaller(m, self.3.bound());
        let m = smaller(m, self.4.bound());
        smaller(m, self.5.bound())
    }

    open spec fn source_at(self, p: int) -> Option<<Self::Joined as Join>::Value> {
        match (
            self.0.source_at(p),
            self.1.source_at(p),
            self.2.source_at(p),
            self.3.source_at(p),
            self.4.source_at(p),
            self.5.source_at(p),
        ) {
            (Some(a), Some(b), Some(c), Some(d), Some(e), Some(f)) => Some((a, b, c, d, e, f)),
            _ => None,
        }
    }

    /// Joins the members in lockstep, up to the smallest of their bounds.
    fn join(self) -> (j: Joined<Self::Joined>) {
        let a = self.0.join();
        let b = self.1.join();
        let c = self.2.join();
        let d = self.3.join();
        let e = self.4.join();
        let f = self.5.join();
        let len = smaller_of(a.len, b.len);
        let len = smaller_of(len, c.len);
        let len = smaller_of(len, d.len);
        let len = smaller_of(len, e.len);
        let len = smaller_of(len, f.len);
        Joined::new(TupleJoin((a.iter, b.iter, c.iter, d.iter, e.iter, f.iter)), len)
    }

    fn maybe(self) -> (m: Maybe<Self::Joined>) {
        Maybe::new(self.join().iter)
    }
}

} // verus!
