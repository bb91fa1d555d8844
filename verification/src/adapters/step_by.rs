use crate::model::{
    lemma_skipped_twice, lemma_stride_count_is_ceiling, lemma_stride_in_range,
    lemma_strided_advance, skipped, stride_count, strided,
};
use crate::LendingIterator;
use vstd::prelude::*;

verus! {

/// A lending iterator for stepping lending iterators by a custom amount.
///
/// This `struct` is created by the [`step_by`] method on [`LendingIteratorExt`].
///
/// [`step_by`]: crate::LendingIteratorExt::step_by
/// [`LendingIteratorExt`]: crate::LendingIteratorExt
#[derive(Clone, Debug)]
#[must_use]
pub struct StepBy<I> {
    iter: I,
    step: usize,
    first_take: bool,
}

impl<I> StepBy<I> where I: LendingIterator + 'static {
    /// What the inner iterator has yet to produce.
    pub closed spec fn source<'a>(&'a self) -> Seq<I::Item<'a>> {
        self.iter.remaining()
    }

    /// The distance between two elements that are handed out, one after the
    /// other. It is never zero.
    pub closed spec fn stride(&self) -> nat {
        (self.step + 1) as nat
    }

    /// Whether nothing has been asked of this iterator yet.
    pub closed spec fn fresh(&self) -> bool {
        self.first_take
    }

    /// Steps through `iter` in strides of `step`, which must not be zero.
    pub fn new(iter: I, step: usize) -> (step_by: StepBy<I>)
        requires
            step != 0,
        ensures
            step_by.inv() == iter.inv(),
            step_by.source() == iter.remaining(),
            step_by.stride() == step,
            step_by.fresh(),
    {
        StepBy { iter, step: step - 1, first_take: true }
    }
}

impl<I> LendingIterator for StepBy<I> where I: LendingIterator + 'static {
    type Item<'a> = I::Item<'a>;

    closed spec fn inv(&self) -> bool {
        self.iter.inv()
    }

    open spec fn remaining<'a>(&'a self) -> Seq<I::Item<'a>> {
        if self.fresh() {
            strided(self.source(), self.stride())
        } else {
            strided(skipped(self.source(), (self.stride() - 1) as nat), self.stride())
        }
    }

    /// The first call hands out the inner iterator's first element. Every
    /// later call passes over one element less than the stride and hands
    /// out the one behind them.
    fn next(&mut self) -> (item: Option<I::Item<'_>>)
        ensures
            !final(self).fresh(),
            final(self).stride() == old(self).stride(),
            final(self).source() == skipped(
                old(self).source(),
                if old(self).fresh() {
                    1
                } else {
                    old(self).stride()
                },
            ),
    {
        proof {
            let s = self.iter.remaining();
            let k = (self.step + 1) as nat;
            if self.first_take {
                lemma_strided_advance(s, k);
                lemma_skipped_twice(s, 1, (k - 1) as nat);
            } else {
                lemma_strided_advance(skipped(s, (k - 1) as nat), k);
                lemma_skipped_twice(s, (k - 1) as nat, k);
                lemma_skipped_twice(s, k, (k - 1) as nat);
            }
        }
        if self.first_take {
            self.first_take = false;
            self.iter.next()
        } else {
            self.iter.nth(self.step)
        }
    }
}

/// A fresh `StepBy` lends the elements of its inner iterator at the positions
/// `0, k, 2k, ...`, where `k` is its stride, and no others. Their number is
/// the length of the inner iterator divided by `k` and rounded up: the least
/// number of strides that cover it.
pub proof fn lemma_step_by_lends_every_kth<I: LendingIterator + 'static>(step_by: StepBy<I>)
    requires
        step_by.fresh(),
    ensures
        step_by.stride() > 0,
        step_by.remaining().len() == stride_count(step_by.source().len(), step_by.stride()),
        (step_by.remaining().len() - 1) * step_by.stride() < step_by.source().len()
            <= step_by.remaining().len() * step_by.stride(),
        forall|i: int|
            0 <= i < step_by.remaining().len() ==> #[trigger] step_by.remaining()[i]
                == step_by.source()[i * step_by.stride()] && 0 <= i * step_by.stride() && i
                * step_by.stride() < step_by.source().len(),
{
    let k = step_by.stride();
    let s = step_by.source();
    lemma_stride_count_is_ceiling(s.len(), k);
    assert forall|i: int| 0 <= i < step_by.remaining().len() implies #[trigger]
        step_by.remaining()[i] == step_by.source()[i * step_by.stride()] && 0 <= i
        * step_by.stride() && i * step_by.stride() < step_by.source().len() by {
        lemma_stride_in_range(s.len(), k, i);
    }
}

} // verus!
