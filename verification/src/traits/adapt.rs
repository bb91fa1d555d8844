use crate::adapters::{
    Chain, Enumerate, Filter, FilterMap, Mapped, PeekState, Peekable, Skip, StepBy, Take,
    TakeWhile, Zip,
};
use crate::model::{affirms, computes, computes_on, implements_on};
use crate::LendingIterator;
use vstd::prelude::*;

verus! {

/// The adapters of [`LendingIterator`], as methods of every lending
/// iterator. Each takes the iterator over and wraps it.
pub trait LendingIteratorExt: LendingIterator + Sized {
    /// Creates a lending iterator starting at the same point, but stepping by
    /// the given amount at each iteration. The amount must not be zero.
    #[inline]
    fn step_by(self, step: usize) -> (step_by: StepBy<Self>) where Self: 'static
        requires
            step != 0,
        ensures
            step_by.inv() == self.inv(),
            step_by.source() == self.remaining(),
            step_by.stride() == step,
            step_by.fresh(),
    {
        StepBy::new(self, step)
    }

    /// Creates a lending iterator that lends the first `n` elements, or fewer
    /// if the underlying iterator ends sooner.
    #[inline]
    fn take(self, n: usize) -> (take: Take<Self>) where Self: 'static
        ensures
            take.inv() == self.inv(),
            take.source() == self.remaining(),
            take.limit() == n,
    {
        Take::new(self, n)
    }

    /// Creates a lending iterator that lends items matching a predicate.
    ///
    /// The predicate is called once for every item. Once it returns false
    /// once, `None` is returned for all subsequent calls to [`next`].
    ///
    /// [`next`]: LendingIterator::next
    #[inline]
    fn take_while<P>(self, predicate: P) -> (take_while: TakeWhile<Self, P>) where
        Self: 'static,
        for <'all>P: FnMut(&Self::Item<'all>) -> bool + 'static,

        ensures
            take_while.inv() == (self.inv() && implements_on(
                predicate,
                affirms(predicate),
                self.remaining(),
            )),
            take_while.source() == self.remaining(),
            take_while.predicate() == predicate,
            take_while.verdict() == affirms(predicate),
            !take_while.ended(),
    {
        TakeWhile::new(self, predicate)
    }

    /// Takes two lending iterators and creates a new lending iterator over
    /// both in sequence.
    #[inline]
    fn chain<I>(self, other: I) -> (chain: Chain<Self, I>) where
        Self: 'static,
        for <'all>I: LendingIterator<Item<'all> = Self::Item<'all>> + 'static,

        ensures
            chain.inv() == (self.inv() && other.inv()),
            chain.a() == self,
            chain.b() == other,
    {
        Chain::new(self, other)
    }

    /// 'Zips up' two lending iterators into a single lending iterator of
    /// pairs.
    #[inline]
    fn zip<I>(self, other: I) -> (zip: Zip<Self, I>) where
        Self: 'static,
        I: LendingIterator + 'static,

        ensures
            zip.inv() == (self.inv() && other.inv()),
            zip.a() == self,
            zip.b() == other,
    {
        Zip::new(self, other)
    }

    /// Takes a function and creates a lending iterator which calls that
    /// function on each element. What the function returns must not borrow
    /// from the element.
    #[inline]
    fn map<F, U>(self, f: F) -> (map: Mapped<Self, F, U>) where
        Self: 'static,
        for <'all>F: FnMut(Self::Item<'all>) -> U + 'static,
        U: 'static,

        ensures
            map.inv() == (self.inv() && computes_on(f, computes(f), self.remaining())),
            map.inner() == self,
            map.function() == f,
            map.image() == computes(f),
    {
        Mapped::new(self, f)
    }

    /// Creates a lending iterator which uses a predicate to determine if an
    /// element should be yielded.
    #[inline]
    fn filter<T, P>(self, predicate: P) -> (filter: Filter<Self, P, T>) where
        for <'all>Self: LendingIterator<Item<'all> = T> + 'static,
        P: FnMut(&T) -> bool + 'static,

        ensures
            filter.inv() == (self.inv() && implements_on(
                predicate,
                affirms(predicate),
                self.remaining(),
            )),
            filter.inner() == self,
            filter.predicate() == predicate,
            filter.verdict() == affirms(predicate),
    {
        Filter::new(self, predicate)
    }

    /// Creates a lending iterator that both filters and maps.
    #[inline]
    fn filter_map<F, U>(self, f: F) -> (filter_map: FilterMap<Self, F, U>) where
        Self: 'static,
        for <'all>F: FnMut(Self::Item<'all>) -> Option<U> + 'static,
        U: 'static,

        ensures
            filter_map.inv() == (self.inv() && computes_on(f, computes(f), self.remaining())),
            filter_map.source() == self.remaining(),
            filter_map.function() == f,
            filter_map.image() == computes(f),
    {
        FilterMap::new(self, f)
    }

    /// Creates a lending iterator which gives the current iteration count as
    /// well as the next value.
    #[inline]
    fn enumerate(self) -> (enumerate: Enumerate<Self>) where Self: 'static
        ensures
            enumerate.inv() == (self.inv() && self.remaining().len() <= usize::MAX),
            enumerate.inner() == self,
            enumerate.number() == 0,
    {
        Enumerate::new(self)
    }

    /// Creates an iterator which can use the [`peek`] and [`peek_mut`]
    /// methods to look at the next element of the iterator without consuming
    /// it.
    ///
    /// [`peek`]: Peekable::peek
    /// [`peek_mut`]: Peekable::peek_mut
    #[inline]
    fn peekable<T>(self) -> (peekable: Peekable<Self, T>) where
        for <'all>Self: LendingIterator<Item<'all> = T> + 'static,

        ensures
            peekable.wf() == self.inv(),
            peekable.lender() == self,
            peekable@ == (PeekState { slot: None, source: self.remaining() }),
    {
        Peekable::new(self)
    }

    /// Creates a lending iterator that skips over the first `n` elements of
    /// self.
    #[inline]
    fn skip(self, n: usize) -> (skip: Skip<Self>) where Self: 'static
        ensures
            skip.inv() == self.inv(),
            skip.source() == self.remaining(),
            skip.pending() == n,
    {
        Skip::new(self, n)
    }
}

impl<I: LendingIterator> LendingIteratorExt for I {

}

} // verus!
