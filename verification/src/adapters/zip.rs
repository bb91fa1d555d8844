use crate::model::{lesser_hints, skipped, zipped};
use crate::LendingIterator;
use vstd::prelude::*;

verus! {

/// A lending iterator that lends the items of two iterators in pairs, until
/// one of the two is at its end.
///
/// This `struct` is created by the [`zip`] method on [`LendingIteratorExt`].
///
/// [`zip`]: crate::LendingIteratorExt::zip
/// [`LendingIteratorExt`]: crate::LendingIteratorExt
#[derive(Clone, Debug)]
#[must_use]
pub struct Zip<A, B> {
    a: A,
    b: B,
}

impl<A, B> Zip<A, B> where A: LendingIterator + 'static, B: LendingIterator + 'static {
    /// The first iterator.
    pub closed spec fn a(&self) -> A {
        self.a
    }

    /// The second iterator.
    pub closed spec fn b(&self) -> B {
        self.b
    }

    /// What the first iterator has yet to produce.
    pub open spec fn first<'a>(&'a self) -> Seq<A::Item<'a>> {
        self.a().remaining()
    }

    /// What the second iterator has yet to produce.
    pub open spec fn second<'a>(&'a self) -> Seq<B::Item<'a>> {
        self.b().remaining()
    }

    /// Lends the items of `a` and `b` in pairs.
    pub fn new(a: A, b: B) -> (zip: Self)
        ensures
            zip.inv() == (a.inv() && b.inv()),
            zip.a() == a,
            zip.b() == b,
    {
        Zip { a, b }
    }
}

impl<A, B> LendingIterator for Zip<A, B> where
    A: LendingIterator + 'static,
    B: LendingIterator + 'static,
 {
    type Item<'a> = (A::Item<'a>, B::Item<'a>);

    closed spec fn inv(&self) -> bool {
        self.a.inv() && self.b.inv()
    }

    open spec fn remaining<'a>(&'a self) -> Seq<(A::Item<'a>, B::Item<'a>)> {
        zipped(self.first(), self.second())
    }

    /// Asks the first iterator and then, if that had an item, the second. An
    /// item of the first that finds no partner is lost.
    #[inline]
    fn next(&mut self) -> (item: Option<(A::Item<'_>, B::Item<'_>)>)
        ensures
            final(self).first() == skipped(old(self).first(), 1),
            final(self).second() == (if old(self).first().len() > 0 {
                skipped(old(self).second(), 1)
            } else {
                old(self).second()
            }),
    {
        let a = match self.a.next() {
            Some(a) => a,
            None => {
                return None;
            },
        };
        let b = match self.b.next() {
            Some(b) => b,
            None => {
                return None;
            },
        };
        Some((a, b))
    }

    /// The lesser of the lower bounds, and the lesser of the upper bounds
    /// where there are any.
    #[inline]
    fn size_hint(&self) -> (hint: (usize, Option<usize>))
        ensures
            exists|first: (usize, Option<usize>), second: (usize, Option<usize>)|
                #![trigger
                    call_ensures(A::size_hint, (&self.a(),), first),
                    call_ensures(B::size_hint, (&self.b(),), second),
                ]
                call_ensures(A::size_hint, (&self.a(),), first) && call_ensures(
                    B::size_hint,
                    (&self.b(),),
                    second,
                ) && hint == lesser_hints(first, second),
    {
        let (a_lower, a_upper) = self.a.size_hint();
        let (b_lower, b_upper) = self.b.size_hint();
        let lower = if a_lower <= b_lower {
            a_lower
        } else {
            b_lower
        };
        let upper = match (a_upper, b_upper) {
            (Some(x), Some(y)) => Some(
                if x <= y {
                    x
                } else {
                    y
                },
            ),
            (Some(x), None) => Some(x),
            (None, Some(y)) => Some(y),
            (None, None) => None,
        };
        (lower, upper)
    }
}

} // verus!
