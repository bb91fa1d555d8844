use crate::model::{added_hints, skipped};
use crate::LendingIterator;
use vstd::prelude::*;

verus! {

/// A lending iterator that lends the items of one iterator and then those of
/// another.
///
/// This `struct` is created by the [`chain`] method on [`LendingIteratorExt`].
///
/// [`chain`]: crate::LendingIteratorExt::chain
/// [`LendingIteratorExt`]: crate::LendingIteratorExt
#[derive(Clone, Debug)]
#[must_use]
pub struct Chain<A, B> {
    a: A,
    b: B,
}

impl<A, B> Chain<A, B> where
    A: LendingIterator + 'static,
    for <'all>B: LendingIterator<Item<'all> = A::Item<'all>> + 'static,
 {
    /// The first iterator.
    pub closed spec fn a(&self) -> A {
        self.a
    }

    /// The second iterator.
    pub closed spec fn b(&self) -> B {
        self.b
    }

    /// What the first iterator has yet to produce.
    pub open spec fn first<'a>(&'a self) -> Seq<A::Item<'a>> {
        self.a().remaining()
    }

    /// What the second iterator has yet to produce.
    pub open spec fn second<'a>(&'a self) -> Seq<A::Item<'a>> {
        self.b().remaining()
    }

    /// Lends the items of `a` and then those of `b`.
    pub fn new(a: A, b: B) -> (chain: Self)
        ensures
            chain.inv() == (a.inv() && b.inv()),
            chain.a() == a,
            chain.b() == b,
    {
        Chain { a, b }
    }
}

impl<A, B> LendingIterator for Chain<A, B> where
    A: LendingIterator + 'static,
    for <'all>B: LendingIterator<Item<'all> = A::Item<'all>> + 'static,
 {
    type Item<'a> = A::Item<'a>;

    closed spec fn inv(&self) -> bool {
        self.a.inv() && self.b.inv()
    }

    open spec fn remaining<'a>(&'a self) -> Seq<A::Item<'a>> {
        self.first() + self.second()
    }

    /// Hands out the first iterator's next item, and the second's once the
    /// first is at its end.
    #[inline]
    fn next(&mut self) -> (item: Option<A::Item<'_>>)
        ensures
            final(self).first() == skipped(old(self).first(), 1),
            final(self).second() == (if old(self).first().len() > 0 {
                old(self).second()
            } else {
                skipped(old(self).second(), 1)
            }),
    {
        match self.a.next() {
            Some(item) => Some(item),
            None => self.b.next(),
        }
    }

    /// The bounds of the two iterators, added up.
    #[inline]
    fn size_hint(&self) -> (hint: (usize, Option<usize>))
        ensures
            exists|first: (usize, Option<usize>), second: (usize, Option<usize>)|
                #![trigger
                    call_ensures(A::size_hint, (&self.a(),), first),
                    call_ensures(B::size_hint, (&self.b(),), second),
                ]
                call_ensures(A::size_hint, (&self.a(),), first) && call_ensures(
                    B::size_hint,
                    (&self.b(),),
                    second,
                ) && hint == added_hints(first, second),
    {
        let (a_lower, a_upper) = self.a.size_hint();
        let (b_lower, b_upper) = self.b.size_hint();
        assert(call_ensures(A::size_hint, (&self.a(),), (a_lower, a_upper)));
        assert(call_ensures(B::size_hint, (&self.b(),), (b_lower, b_upper)));
        let lower = a_lower.saturating_add(b_lower);
        let upper = match (a_upper, b_upper) {
            (Some(x), Some(y)) => x.checked_add(y),
            _ => None,
        };
        (lower, upper)
    }
}

} // verus!
