use crate::model::{numbered, skipped};
use crate::LendingIterator;
use vstd::prelude::*;

verus! {

/// A lending iterator that lends each item together with its number, counted
/// from zero.
///
/// This `struct` is created by the [`enumerate`] method on
/// [`LendingIteratorExt`].
///
/// [`enumerate`]: crate::LendingIteratorExt::enumerate
/// [`LendingIteratorExt`]: crate::LendingIteratorExt
#[derive(Clone, Debug)]
#[must_use]
pub struct Enumerate<I> {
    iter: I,
    count: usize,
}

impl<I> Enumerate<I> where I: LendingIterator + 'static {
    /// The inner iterator.
    pub closed spec fn inner(&self) -> I {
        self.iter
    }

    /// What the inner iterator has yet to produce.
    pub open spec fn source<'a>(&'a self) -> Seq<I::Item<'a>> {
        self.inner().remaining()
    }

    /// The number that the next item gets.
    pub closed spec fn number(&self) -> usize {
        self.count
    }

    /// Numbers the items of `iter` from zero. The numbers must fit: the
    /// result is well formed where `iter` is and has no more items than a
    /// `usize` can count.
    pub fn new(iter: I) -> (enumerate: Self)
        ensures
            enumerate.inv() == (iter.inv() && iter.remaining().len() <= usize::MAX),
            enumerate.inner() == iter,
            enumerate.number() == 0,
    {
        Enumerate { iter, count: 0 }
    }
}

impl<I> LendingIterator for Enumerate<I> where I: LendingIterator + 'static {
    type Item<'a> = (usize, I::Item<'a>);

    closed spec fn inv(&self) -> bool {
        self.iter.inv() && self.count + self.iter.remaining().len() <= usize::MAX
    }

    open spec fn remaining<'a>(&'a self) -> Seq<(usize, I::Item<'a>)> {
        numbered(self.source(), self.number())
    }

    #[inline]
    fn next(&mut self) -> (item: Option<(usize, I::Item<'_>)>)
        ensures
            final(self).source() == skipped(old(self).source(), 1),
            final(self).number() == old(self).number() + (if item is Some {
                1int
            } else {
                0int
            }),
    {
        match self.iter.next() {
            Some(item) => {
                let number = self.count;
                self.count += 1;
                Some((number, item))
            },
            None => None,
        }
    }

    /// The inner iterator's bounds: numbering neither adds items nor takes
    /// any away.
    #[inline]
    fn size_hint(&self) -> (hint: (usize, Option<usize>))
        ensures
            call_ensures(I::size_hint, (&self.inner(),), hint),
    {
        self.iter.size_hint()
    }
}

} // verus!
