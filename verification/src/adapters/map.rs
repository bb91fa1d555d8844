use crate::model::{computes, computes_on, lemma_computes_on_skipped, skipped};
use crate::LendingIterator;
use vstd::prelude::*;

verus! {

broadcast use vstd::function::group_function_axioms;

/// A lending iterator that lends what a function makes of each item of the
/// inner iterator.
///
/// What the function returns must not borrow from the item that it is given:
/// it is of one type `U` for every call.
///
/// To its contracts the function is what it computes: its
/// [`image`](Self::image), a function of the item alone.
///
/// This `struct` is created by the [`map`] method on [`LendingIteratorExt`].
///
/// [`map`]: crate::LendingIteratorExt::map
/// [`LendingIteratorExt`]: crate::LendingIteratorExt
#[derive(Clone)]
#[must_use]
pub struct Mapped<I, F, U> where I: LendingIterator + 'static {
    iter: I,
    f: F,
    image: Ghost<spec_fn(I::Item<'static>) -> U>,
}

impl<I, F, U> Mapped<I, F, U> where
    I: LendingIterator + 'static,
    for <'all>F: FnMut(I::Item<'all>) -> U + 'static,
    U: 'static,
 {
    /// The inner iterator.
    pub closed spec fn inner(&self) -> I {
        self.iter
    }

    /// What the inner iterator has yet to produce.
    pub open spec fn source<'a>(&'a self) -> Seq<I::Item<'a>> {
        self.inner().remaining()
    }

    /// The function that is applied to each item.
    pub closed spec fn function(&self) -> F {
        self.f
    }

    /// What the function makes of an item.
    pub closed spec fn image(&self) -> spec_fn(I::Item<'static>) -> U {
        self.image@
    }

    /// Lends what `f` makes of each item of `iter`. The image is the
    /// function's own: of an item, a value that `f` may return for it.
    pub fn new(iter: I, f: F) -> (map: Self)
        ensures
            map.inv() == (iter.inv() && computes_on(f, computes(f), iter.remaining())),
            map.inner() == iter,
            map.function() == f,
            map.image() == computes(f),
    {
        Self { iter, f, image: Ghost(computes(f)) }
    }

    /// Lends what `f` makes of each item of `iter`, where `image` says what
    /// `f` computes.
    pub fn with_image(iter: I, f: F, image: Ghost<spec_fn(I::Item<'static>) -> U>) -> (map: Self)
        ensures
            map.inv() == (iter.inv() && computes_on(f, image@, iter.remaining())),
            map.inner() == iter,
            map.function() == f,
            map.image() == image@,
    {
        Self { iter, f, image }
    }
}

impl<I, F, U> LendingIterator for Mapped<I, F, U> where
    I: LendingIterator + 'static,
    for <'all>F: FnMut(I::Item<'all>) -> U + 'static,
    U: 'static,
 {
    type Item<'a> = U;

    closed spec fn inv(&self) -> bool {
        self.iter.inv() && computes_on(self.f, self.image@, self.iter.remaining())
    }

    open spec fn remaining<'a>(&'a self) -> Seq<U> {
        self.source().map_values(self.image())
    }

    /// Hands out what the function returns for the inner iterator's next
    /// item.
    #[inline]
    fn next(&mut self) -> (item: Option<U>)
        ensures
            final(self).function() == old(self).function(),
            final(self).image() == old(self).image(),
            final(self).source() == skipped(old(self).source(), 1),
            item matches Some(y) ==> call_ensures(
                old(self).function(),
                (old(self).source()[0],),
                y,
            ),
    {
        proof {
            lemma_computes_on_skipped(self.f, self.image@, self.iter.remaining(), 1);
        }
        match self.iter.next() {
            Some(item) => Some((self.f)(item)),
            None => None,
        }
    }

    /// The inner iterator's bounds: mapping neither adds items nor takes any
    /// away.
    #[inline]
    fn size_hint(&self) -> (hint: (usize, Option<usize>))
        ensures
            call_ensures(I::size_hint, (&self.inner(),), hint),
    {
        self.iter.size_hint()
    }
}

} // verus!
