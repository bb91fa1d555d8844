use crate::model::{
    affirms, implements_on, leading, lemma_implements_on_skipped, lemma_leading_is_longest_prefix,
    lemma_leading_is_unique, skipped, taken,
};
use crate::LendingIterator;
use vstd::prelude::*;

verus! {

broadcast use vstd::function::group_function_axioms;

/// A lending iterator that lends items while a predicate holds.
///
/// The first item of which the predicate does not hold is discarded, and
/// from then on the iterator is at its end, whatever comes behind that item.
///
/// To its contracts the predicate is what it decides: its
/// [`verdict`](Self::verdict), a function of the item alone.
#[derive(Clone)]
#[must_use]
pub struct TakeWhile<I, P> where I: LendingIterator + 'static {
    iter: I,
    predicate: P,
    flag: bool,
    verdict: Ghost<spec_fn(I::Item<'static>) -> bool>,
}

impl<I, P> TakeWhile<I, P> where
    I: LendingIterator + 'static,
    for <'all>P: FnMut(&I::Item<'all>) -> bool + 'static,
 {
    /// What the inner iterator has yet to produce.
    pub closed spec fn source<'a>(&'a self) -> Seq<I::Item<'a>> {
        self.iter.remaining()
    }

    /// The predicate that decides how long items are lent.
    pub closed spec fn predicate(&self) -> P {
        self.predicate
    }

    /// What the predicate decides of an item.
    pub closed spec fn verdict(&self) -> spec_fn(I::Item<'static>) -> bool {
        self.verdict@
    }

    /// Whether an item has failed the predicate.
    pub closed spec fn ended(&self) -> bool {
        self.flag
    }

    /// Lends the items of `iter` while `predicate` holds of them. The
    /// verdict is the predicate's own: it holds of an item where the
    /// predicate may answer `true`.
    pub fn new(iter: I, predicate: P) -> (take_while: Self)
        ensures
            take_while.inv() == (iter.inv() && implements_on(
                predicate,
                affirms(predicate),
                iter.remaining(),
            )),
            take_while.source() == iter.remaining(),
            take_while.predicate() == predicate,
            take_while.verdict() == affirms(predicate),
            !take_while.ended(),
    {
        Self { iter, predicate, flag: false, verdict: Ghost(affirms(predicate)) }
    }

    /// Lends the items of `iter` while `predicate` holds of them, where
    /// `verdict` says what the predicate decides.
    pub fn with_verdict(
        iter: I,
        predicate: P,
        verdict: Ghost<spec_fn(I::Item<'static>) -> bool>,
    ) -> (take_while: Self)
        ensures
            take_while.inv() == (iter.inv() && implements_on(
                predicate,
                verdict@,
                iter.remaining(),
            )),
            take_while.source() == iter.remaining(),
            take_while.predicate() == predicate,
            take_while.verdict() == verdict@,
            !take_while.ended(),
    {
        Self { iter, predicate, flag: false, verdict }
    }
}

impl<I, P> LendingIterator for TakeWhile<I, P> where
    I: LendingIterator + 'static,
    for <'all>P: FnMut(&I::Item<'all>) -> bool + 'static,
 {
    type Item<'a> = I::Item<'a>;

    closed spec fn inv(&self) -> bool {
        self.iter.inv() && implements_on(self.predicate, self.verdict@, self.iter.remaining())
    }

    open spec fn remaining<'a>(&'a self) -> Seq<I::Item<'a>> {
        if self.ended() {
            Seq::empty()
        } else {
            taken(self.source(), leading(self.verdict(), self.source()))
        }
    }

    /// Hands out the inner iterator's next item if the predicate answers
    /// `true` for it. The first item for which it answers `false` is
    /// discarded, and ends the iterator for good.
    fn next(&mut self) -> (item: Option<I::Item<'_>>)
        ensures
            final(self).predicate() == old(self).predicate(),
            final(self).verdict() == old(self).verdict(),
            final(self).ended() == (old(self).ended() || (old(self).source().len() > 0
                && item is None)),
            final(self).source() == (if old(self).ended() {
                old(self).source()
            } else {
                skipped(old(self).source(), 1)
            }),
            !old(self).ended() && old(self).source().len() > 0 ==> call_ensures(
                old(self).predicate(),
                (&old(self).source()[0],),
                item is Some,
            ),
    {
        if self.flag {
            None
        } else {
            proof {
                lemma_implements_on_skipped(
                    self.predicate,
                    self.verdict@,
                    self.iter.remaining(),
                    1,
                );
            }
            match self.iter.next() {
                Some(item) => {
                    if (self.predicate)(&item) {
                        Some(item)
                    } else {
                        self.flag = true;
                        None
                    }
                },
                None => None,
            }
        }
    }
}

/// A `TakeWhile` that has not ended lends a prefix of its inner iterator, in
/// its order: the predicate's verdict holds of every item that it lends, and
/// does not hold of the inner iterator's item behind them, if there is one.
pub proof fn lemma_take_while_lends_accepted_prefix<I, P>(take_while: TakeWhile<I, P>) where
    I: LendingIterator + 'static,
    for <'all>P: FnMut(&I::Item<'all>) -> bool + 'static,

    requires
        !take_while.ended(),
    ensures
        take_while.remaining().len() <= take_while.source().len(),
        forall|i: int|
            0 <= i < take_while.remaining().len() ==> #[trigger] take_while.remaining()[i]
                == take_while.source()[i] && (take_while.verdict())(take_while.source()[i]),
        take_while.remaining().len() < take_while.source().len() ==> !(take_while.verdict())(
            take_while.source()[take_while.remaining().len() as int],
        ),
{
    lemma_leading_is_longest_prefix(take_while.verdict(), take_while.source());
}

/// The prefix that a `TakeWhile` lends is the only one of its kind: where the
/// predicate's verdict holds of the first `n` items of the inner iterator and
/// not of the item behind them, if there is one, those `n` items are what
/// the `TakeWhile` lends.
pub proof fn lemma_take_while_lends_exactly<I, P>(take_while: TakeWhile<I, P>, n: nat) where
    I: LendingIterator + 'static,
    for <'all>P: FnMut(&I::Item<'all>) -> bool + 'static,

    requires
        !take_while.ended(),
        n <= take_while.source().len(),
        forall|i: int| 0 <= i < n ==> (take_while.verdict())(#[trigger] take_while.source()[i]),
        n < take_while.source().len() ==> !(take_while.verdict())(take_while.source()[n as int]),
    ensures
        take_while.remaining() == take_while.source().take(n as int),
{
    lemma_leading_is_unique(take_while.verdict(), take_while.source(), n);
}

} // verus!
