use crate::model::{
    affirms, implements_on, leading, lemma_implements_on_skipped, lemma_leading_is_longest_prefix,
    lemma_leading_is_unique, skipped, thinned_hint,
};
use crate::LendingIterator;
use vstd::prelude::*;

verus! {

broadcast use vstd::function::group_function_axioms;

/// A lending iterator that skips items based on a predicate.
///
/// Items are discarded while the predicate holds of them. The first item of
/// which it does not hold is handed out, and so is every item behind it,
/// whatever the predicate would say of them.
///
/// An item that is tested and discarded must be let go of before the next
/// one is asked for, all within one call. So the items of the inner iterator
/// must not borrow from it: they are of one type `T` for every call.
///
/// To its contracts the predicate is what it decides: its
/// [`verdict`](Self::verdict), a function of the item alone.
#[derive(Clone)]
#[must_use]
#[verifier::reject_recursive_types(T)]
pub struct SkipWhile<I, P, T> {
    iter: I,
    predicate: P,
    flag: bool,
    verdict: Ghost<spec_fn(T) -> bool>,
}

impl<T, I, P> SkipWhile<I, P, T> where
    for <'all>I: LendingIterator<Item<'all> = T> + 'static,
    P: FnMut(&T) -> bool + 'static,
 {
    /// The inner iterator.
    pub closed spec fn inner(&self) -> I {
        self.iter
    }

    /// What the inner iterator has yet to produce.
    pub open spec fn source(&self) -> Seq<T> {
        self.inner().remaining()
    }

    /// The predicate that decides which items are skipped.
    pub closed spec fn predicate(&self) -> P {
        self.predicate
    }

    /// What the predicate decides of an item.
    pub closed spec fn verdict(&self) -> spec_fn(T) -> bool {
        self.verdict@
    }

    /// Whether an item has been handed out, so that none is skipped any more.
    pub closed spec fn passing(&self) -> bool {
        self.flag
    }

    /// Skips the items of `iter` while `predicate` holds of them. The
    /// verdict is the predicate's own: it holds of an item where the
    /// predicate may answer `true`.
    pub fn new(iter: I, predicate: P) -> (skip_while: Self)
        ensures
            skip_while.inv() == (iter.inv() && implements_on(
                predicate,
                affirms(predicate),
                iter.remaining(),
            )),
            skip_while.inner() == iter,
            skip_while.predicate() == predicate,
            skip_while.verdict() == affirms(predicate),
            !skip_while.passing(),
    {
        Self { iter, predicate, flag: false, verdict: Ghost(affirms(predicate)) }
    }

    /// Skips the items of `iter` while `predicate` holds of them, where
    /// `verdict` says what the predicate decides.
    pub fn with_verdict(iter: I, predicate: P, verdict: Ghost<spec_fn(T) -> bool>) -> (skip_while:
        Self)
        ensures
            skip_while.inv() == (iter.inv() && implements_on(
                predicate,
                verdict@,
                iter.remaining(),
            )),
            skip_while.inner() == iter,
            skip_while.predicate() == predicate,
            skip_while.verdict() == verdict@,
            !skip_while.passing(),
    {
        Self { iter, predicate, flag: false, verdict }
    }
}

impl<T, I, P> LendingIterator for SkipWhile<I, P, T> where
    for <'all>I: LendingIterator<Item<'all> = T> + 'static,
    P: FnMut(&T) -> bool + 'static,
    T: 'static,
 {
    type Item<'a> = T;

    closed spec fn inv(&self) -> bool {
        self.iter.inv() && implements_on(self.predicate, self.verdict@, self.iter.remaining())
    }

    open spec fn remaining<'a>(&'a self) -> Seq<T> {
        if self.passing() {
            self.source()
        } else {
            skipped(self.source(), leading(self.verdict(), self.source()))
        }
    }

    /// Discards the items of which the predicate holds, if none has been
    /// handed out yet, and hands out the one behind them. The predicate has
    /// answered `true` for each item that is discarded and `false` for the
    /// one that ends the skipping.
    #[inline]
    fn next(&mut self) -> (item: Option<T>)
        ensures
            final(self).predicate() == old(self).predicate(),
            final(self).verdict() == old(self).verdict(),
            final(self).passing() == (old(self).passing() || item is Some),
            final(self).source() == skipped(old(self).remaining(), 1),
            !old(self).passing() ==> forall|i: int|
                0 <= i < leading(old(self).verdict(), old(self).source()) ==> call_ensures(
                    old(self).predicate(),
                    (&#[trigger] old(self).source()[i],),
                    true,
                ),
            !old(self).passing() ==> (item matches Some(x) ==> call_ensures(
                old(self).predicate(),
                (&x,),
                false,
            )),
    {
        let ghost all = self.iter.remaining();
        let ghost mut done: int = 0;
        assert(all.skip(0) =~= all);
        loop
            invariant
                self.inv(),
                self.predicate() == old(self).predicate(),
                self.verdict() == old(self).verdict(),
                self.passing() == old(self).passing(),
                self.remaining() == old(self).remaining(),
                all == old(self).source(),
                0 <= done <= all.len(),
                self.iter.remaining() == all.skip(done),
                !self.flag ==> done <= leading(self.verdict@, all),
                !self.flag ==> forall|i: int|
                    0 <= i < done ==> call_ensures(self.predicate, (&#[trigger] all[i],), true),
                !self.flag ==> leading(self.verdict@, all) == done + leading(
                    self.verdict@,
                    all.skip(done),
                ),
            decreases self.iter.remaining().len(),
        {
            proof {
                lemma_implements_on_skipped(
                    self.predicate,
                    self.verdict@,
                    self.iter.remaining(),
                    1,
                );
            }
            match self.iter.next() {
                Some(item) => {
                    proof {
                        assert(item == all[done]);
                        assert(all.skip(done).skip(1) =~= all.skip(done + 1));
                    }
                    if self.flag || !(self.predicate)(&item) {
                        self.flag = true;
                        return Some(item);
                    }
                    proof {
                        done = done + 1;
                    }
                },
                None => return None,
            }
        }
    }

    /// Nothing is known of how many items will be skipped, so the lower
    /// bound is zero; the upper bound is the inner iterator's.
    #[inline]
    fn size_hint(&self) -> (hint: (usize, Option<usize>))
        ensures
            exists|inner: (usize, Option<usize>)|
                #![trigger call_ensures(I::size_hint, (&self.inner(),), inner)]
                call_ensures(I::size_hint, (&self.inner(),), inner) && hint == thinned_hint(inner),
    {
        let inner = self.iter.size_hint();
        (0, inner.1)
    }
}

/// A `SkipWhile` that has not handed out anything yet lends what is left of
/// its inner iterator behind a prefix: the predicate's verdict holds of every
/// item of that prefix, and does not hold of the first item that is lent.
pub proof fn lemma_skip_while_skips_accepted_prefix<T, I, P>(skip_while: SkipWhile<I, P, T>) where
    for <'all>I: LendingIterator<Item<'all> = T> + 'static,
    P: FnMut(&T) -> bool + 'static,

    requires
        !skip_while.passing(),
    ensures
        skip_while.remaining().len() <= skip_while.source().len(),
        skip_while.remaining() == skip_while.source().skip(
            skip_while.source().len() - skip_while.remaining().len(),
        ),
        forall|i: int|
            0 <= i < skip_while.source().len() - skip_while.remaining().len() ==> (
            skip_while.verdict())(#[trigger] skip_while.source()[i]),
        skip_while.remaining().len() > 0 ==> !(skip_while.verdict())(skip_while.remaining()[0]),
{
    lemma_leading_is_longest_prefix(skip_while.verdict(), skip_while.source());
}

/// The prefix that a `SkipWhile` skips is the only one of its kind: where the
/// predicate's verdict holds of the first `n` items of the inner iterator and
/// not of the item behind them, if there is one, a `SkipWhile` that has not
/// handed out anything yet lends what lies behind those `n` items.
pub proof fn lemma_skip_while_skips_exactly<T, I, P>(skip_while: SkipWhile<I, P, T>, n: nat) where
    for <'all>I: LendingIterator<Item<'all> = T> + 'static,
    P: FnMut(&T) -> bool + 'static,

    requires
        !skip_while.passing(),
        n <= skip_while.source().len(),
        forall|i: int| 0 <= i < n ==> (skip_while.verdict())(#[trigger] skip_while.source()[i]),
        n < skip_while.source().len() ==> !(skip_while.verdict())(skip_while.source()[n as int]),
    ensures
        skip_while.remaining() == skip_while.source().skip(n as int),
{
    lemma_leading_is_unique(skip_while.verdict(), skip_while.source(), n);
}

} // verus!
