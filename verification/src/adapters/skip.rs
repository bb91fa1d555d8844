use crate::model::{lemma_skipped_twice, skipped};
use crate::LendingIterator;
use vstd::prelude::*;

verus! {

/// A lending iterator that skips over the first `n` items of `iter`.
#[derive(Clone, Debug)]
#[must_use]
pub struct Skip<I> {
    iter: I,
    n: usize,
}

impl<I> Skip<I> where I: LendingIterator + 'static {
    /// What the inner iterator has yet to produce.
    pub closed spec fn source<'a>(&'a self) -> Seq<I::Item<'a>> {
        self.iter.remaining()
    }

    /// How many items of the inner iterator are still to be passed over.
    pub closed spec fn pending(&self) -> nat {
        self.n as nat
    }

    /// Lends the items of `iter` behind the first `n`.
    pub fn new(iter: I, n: usize) -> (skip: Skip<I>)
        ensures
            skip.inv() == iter.inv(),
            skip.source() == iter.remaining(),
            skip.pending() == n,
    {
        Skip { iter, n }
    }
}

impl<I> LendingIterator for Skip<I> where I: LendingIterator + 'static {
    type Item<'a> = I::Item<'a>;

    closed spec fn inv(&self) -> bool {
        self.iter.inv()
    }

    open spec fn remaining<'a>(&'a self) -> Seq<I::Item<'a>> {
        skipped(self.source(), self.pending())
    }

    /// The first call passes over the items that are to be skipped, and hands
    /// out the one behind them.
    #[inline]
    fn next(&mut self) -> (item: Option<I::Item<'_>>)
        ensures
            final(self).pending() == 0,
            final(self).source() == skipped(old(self).source(), old(self).pending() + 1),
    {
        proof {
            lemma_skipped_twice(self.iter.remaining(), self.n as nat, 1);
        }
        if self.n > 0 {
            let n = self.n;
            self.n = 0;
            self.iter.nth(n)
        } else {
            self.iter.next()
        }
    }
}

} // verus!
