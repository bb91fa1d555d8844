use crate::model::{front, skipped, taken};
use crate::LendingIterator;
use vstd::prelude::*;

verus! {

/// A lending iterator that only lends the first `n` iterations of `iter`.
#[derive(Clone, Debug)]
#[must_use]
pub struct Take<I> {
    iter: I,
    n: usize,
}

impl<I> Take<I> where I: LendingIterator + 'static {
    /// What the inner iterator has yet to produce.
    pub closed spec fn source<'a>(&'a self) -> Seq<I::Item<'a>> {
        self.iter.remaining()
    }

    /// How many elements may still be handed out.
    pub closed spec fn limit(&self) -> nat {
        self.n as nat
    }

    /// Lends the first `n` items of `iter`, or all of them where there are
    /// fewer.
    pub fn new(iter: I, n: usize) -> (take: Take<I>)
        ensures
            take.inv() == iter.inv(),
            take.source() == iter.remaining(),
            take.limit() == n,
    {
        Take { iter, n }
    }
}

impl<I> LendingIterator for Take<I> where I: LendingIterator + 'static {
    type Item<'a> = I::Item<'a>;

    closed spec fn inv(&self) -> bool {
        self.iter.inv()
    }

    open spec fn remaining<'a>(&'a self) -> Seq<I::Item<'a>> {
        taken(self.source(), self.limit())
    }

    /// Hands out the inner iterator's next element while the limit is not
    /// used up. The limit goes down by one with each element handed out, and
    /// once it is zero the inner iterator is left alone.
    fn next(&mut self) -> (item: Option<I::Item<'_>>)
        ensures
            final(self).limit() == old(self).limit() - (if item is Some { 1int } else { 0int }),
            final(self).source() == (if old(self).limit() == 0 {
                old(self).source()
            } else {
                skipped(old(self).source(), 1)
            }),
    {
        if self.n != 0 {
            let item = self.iter.next();
            if item.is_some() {
                self.n -= 1;
            }
            item
        } else {
            None
        }
    }
}

/// A `Take` lends the first elements of its inner iterator, in their order:
/// as many as its limit says, or all of them where there are fewer. Behind
/// them it lends nothing, however often it is asked.
pub proof fn lemma_take_lends_prefix<I: LendingIterator + 'static>(take: Take<I>)
    ensures
        take.remaining().len() == (if take.limit() <= take.source().len() {
            take.limit()
        } else {
            take.source().len()
        }),
        forall|i: int|
            0 <= i < take.remaining().len() ==> #[trigger] take.remaining()[i] == take.source()[i],
        forall|n: nat|
            n >= take.remaining().len() ==> #[trigger] front(skipped(take.remaining(), n))
                is None,
{
}

} // verus!
