use crate::model::{
    affirms, implements_on, lemma_filter_head, lemma_implements_on_skipped, thinned_hint, used,
};
use crate::LendingIterator;
use vstd::prelude::*;

verus! {

broadcast use vstd::function::group_function_axioms;

/// A lending iterator that lends the items of which a predicate holds, and
/// discards the others.
///
/// An item that is tested and discarded must be let go of before the next
/// one is asked for, all within one call. So the items of the inner iterator
/// must not borrow from it: they are of one type `T` for every call.
///
/// To its contracts the predicate is what it decides: its
/// [`verdict`](Self::verdict), a function of the item alone.
///
/// This `struct` is created by the [`filter`] method on [`LendingIteratorExt`].
///
/// [`filter`]: crate::LendingIteratorExt::filter
/// [`LendingIteratorExt`]: crate::LendingIteratorExt
#[derive(Clone)]
#[must_use]
#[verifier::reject_recursive_types(T)]
pub struct Filter<I, P, T> {
    iter: I,
    predicate: P,
    verdict: Ghost<spec_fn(T) -> bool>,
}

impl<T, I, P> Filter<I, P, T> where
    for <'all>I: LendingIterator<Item<'all> = T> + 'static,
    P: FnMut(&T) -> bool + 'static,
 {
    /// The inner iterator.
    pub closed spec fn inner(&self) -> I {
        self.iter
    }

    /// What the inner iterator has yet to produce.
    pub open spec fn source(&self) -> Seq<T> {
        self.inner().remaining()
    }

    /// The predicate that decides which items are lent.
    pub closed spec fn predicate(&self) -> P {
        self.predicate
    }

    /// What the predicate decides of an item.
    pub closed spec fn verdict(&self) -> spec_fn(T) -> bool {
        self.verdict@
    }

    /// Lends the items of `iter` of which `predicate` holds. The verdict is
    /// the predicate's own: it holds of an item where the predicate may
    /// answer `true`.
    pub fn new(iter: I, predicate: P) -> (filter: Self)
        ensures
            filter.inv() == (iter.inv() && implements_on(
                predicate,
                affirms(predicate),
                iter.remaining(),
            )),
            filter.inner() == iter,
            filter.predicate() == predicate,
            filter.verdict() == affirms(predicate),
    {
        Self { iter, predicate, verdict: Ghost(affirms(predicate)) }
    }

    /// Lends the items of `iter` of which `predicate` holds, where `verdict`
    /// says what the predicate decides.
    pub fn with_verdict(iter: I, predicate: P, verdict: Ghost<spec_fn(T) -> bool>) -> (filter: Self)
        ensures
            filter.inv() == (iter.inv() && implements_on(predicate, verdict@, iter.remaining())),
            filter.inner() == iter,
            filter.predicate() == predicate,
            filter.verdict() == verdict@,
    {
        Self { iter, predicate, verdict }
    }
}

impl<T, I, P> LendingIterator for Filter<I, P, T> where
    for <'all>I: LendingIterator<Item<'all> = T> + 'static,
    P: FnMut(&T) -> bool + 'static,
    T: 'static,
 {
    type Item<'a> = T;

    closed spec fn inv(&self) -> bool {
        self.iter.inv() && implements_on(self.predicate, self.verdict@, self.iter.remaining())
    }

    open spec fn remaining<'a>(&'a self) -> Seq<T> {
        self.source().filter(self.verdict())
    }

    /// Asks the inner iterator until it hands out an item of which the
    /// predicate holds, or is at its end. The predicate has answered `false`
    /// for each item that is passed over and `true` for the one that is
    /// handed out.
    #[inline]
    fn next(&mut self) -> (item: Option<T>)
        ensures
            final(self).predicate() == old(self).predicate(),
            final(self).verdict() == old(self).verdict(),
            0 <= used(old(self).source(), final(self).source()),
            final(self).source() == old(self).source().skip(
                used(old(self).source(), final(self).source()),
            ),
            item is Some ==> used(old(self).source(), final(self).source()) > 0,
            item is None ==> final(self).source().len() == 0,
            item == (if item is Some {
                Some(old(self).source()[used(old(self).source(), final(self).source()) - 1])
            } else {
                None
            }),
            forall|i: int|
                0 <= i < used(old(self).source(), final(self).source()) ==> call_ensures(
                    old(self).predicate(),
                    (&#[trigger] old(self).source()[i],),
                    item is Some && i == used(old(self).source(), final(self).source()) - 1,
                ),
    {
        let ghost all = self.iter.remaining();
        let ghost mut done: int = 0;
        assert(all.skip(0) =~= all);
        loop
            invariant
                self.inv(),
                self.predicate() == old(self).predicate(),
                self.verdict() == old(self).verdict(),
                self.remaining() == old(self).remaining(),
                all == old(self).source(),
                0 <= done <= all.len(),
                self.iter.remaining() == all.skip(done),
                forall|i: int|
                    0 <= i < done ==> call_ensures(self.predicate, (&#[trigger] all[i],), false),
            decreases self.iter.remaining().len(),
        {
            proof {
                lemma_implements_on_skipped(
                    self.predicate,
                    self.verdict@,
                    self.iter.remaining(),
                    1,
                );
                if self.iter.remaining().len() > 0 {
                    lemma_filter_head(self.verdict@, self.iter.remaining());
                }
            }
            match self.iter.next() {
                Some(item) => {
                    proof {
                        assert(item == all[done]);
                        assert(all.skip(done).skip(1) =~= all.skip(done + 1));
                    }
                    if (self.predicate)(&item) {
                        proof {
                            let rest = all.skip(done + 1).filter(self.verdict@);
                            assert((seq![item] + rest).skip(1) =~= rest);
                        }
                        return Some(item);
                    }
                    proof {
                        done = done + 1;
                    }
                },
                None => {
                    proof {
                        reveal_with_fuel(Seq::filter, 1);
                    }
                    return None;
                },
            }
        }
    }

    /// Nothing is known of how many items will be kept, so the lower bound is
    /// zero; the upper bound is the inner iterator's.
    #[inline]
    fn size_hint(&self) -> (hint: (usize, Option<usize>))
        ensures
            exists|inner: (usize, Option<usize>)|
                #![trigger call_ensures(I::size_hint, (&self.inner(),), inner)]
                call_ensures(I::size_hint, (&self.inner(),), inner) && hint == thinned_hint(inner),
    {
        proof {
            self.iter.remaining().lemma_filter_len(self.verdict@);
        }
        let inner = self.iter.size_hint();
        assert(call_ensures(I::size_hint, (&self.inner(),), inner));
        (0, inner.1)
    }
}

} // verus!
