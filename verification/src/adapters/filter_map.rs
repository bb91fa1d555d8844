use crate::model::{
    computes, computes_on, lemma_computes_on_skipped, lemma_filter_map_head, used,
};
use crate::LendingIterator;
use vstd::prelude::*;

verus! {

broadcast use vstd::function::group_function_axioms;

/// A lending iterator that both filters and maps: it lends what a function
/// makes of the items of the inner iterator, and passes over the items of
/// which the function makes nothing.
///
/// What the function returns must not borrow from the item that it is given:
/// it is of one type `Option<U>` for every call.
///
/// To its contracts the function is what it computes: its
/// [`image`](Self::image), a function of the item alone.
///
/// This `struct` is created by the [`filter_map`] method on
/// [`LendingIteratorExt`].
///
/// [`filter_map`]: crate::LendingIteratorExt::filter_map
/// [`LendingIteratorExt`]: crate::LendingIteratorExt
#[derive(Clone)]
#[must_use]
pub struct FilterMap<I, F, U> where I: LendingIterator + 'static {
    iter: I,
    f: F,
    image: Ghost<spec_fn(I::Item<'static>) -> Option<U>>,
}

impl<I, F, U> FilterMap<I, F, U> where
    I: LendingIterator + 'static,
    for <'all>F: FnMut(I::Item<'all>) -> Option<U> + 'static,
    U: 'static,
 {
    /// What the inner iterator has yet to produce.
    pub closed spec fn source<'a>(&'a self) -> Seq<I::Item<'a>> {
        self.iter.remaining()
    }

    /// The function that is applied to each item.
    pub closed spec fn function(&self) -> F {
        self.f
    }

    /// What the function makes of an item.
    pub closed spec fn image(&self) -> spec_fn(I::Item<'static>) -> Option<U> {
        self.image@
    }

    /// Lends what `f` makes of the items of `iter`. The image is the
    /// function's own: of an item, a value that `f` may return for it.
    pub fn new(iter: I, f: F) -> (filter_map: Self)
        ensures
            filter_map.inv() == (iter.inv() && computes_on(f, computes(f), iter.remaining())),
            filter_map.source() == iter.remaining(),
            filter_map.function() == f,
            filter_map.image() == computes(f),
    {
        Self { iter, f, image: Ghost(computes(f)) }
    }

    /// Lends what `f` makes of the items of `iter`, where `image` says what
    /// `f` computes.
    pub fn with_image(
        iter: I,
        f: F,
        image: Ghost<spec_fn(I::Item<'static>) -> Option<U>>,
    ) -> (filter_map: Self)
        ensures
            filter_map.inv() == (iter.inv() && computes_on(f, image@, iter.remaining())),
            filter_map.source() == iter.remaining(),
            filter_map.function() == f,
            filter_map.image() == image@,
    {
        Self { iter, f, image }
    }
}

impl<I, F, U> LendingIterator for FilterMap<I, F, U> where
    I: LendingIterator + 'static,
    for <'all>F: FnMut(I::Item<'all>) -> Option<U> + 'static,
    U: 'static,
 {
    type Item<'a> = U;

    closed spec fn inv(&self) -> bool {
        self.iter.inv() && computes_on(self.f, self.image@, self.iter.remaining())
    }

    open spec fn remaining<'a>(&'a self) -> Seq<U> {
        self.source().filter_map(self.image())
    }

    /// Asks the inner iterator until the function makes something of an
    /// item, or the inner iterator is at its end. The function has returned
    /// `None` for each item that is passed over, and what is handed out for
    /// the last one.
    #[inline]
    fn next(&mut self) -> (item: Option<U>)
        ensures
            final(self).function() == old(self).function(),
            final(self).image() == old(self).image(),
            0 <= used(old(self).source(), final(self).source()),
            final(self).source() == old(self).source().skip(
                used(old(self).source(), final(self).source()),
            ),
            item is Some ==> used(old(self).source(), final(self).source()) > 0,
            item is None ==> final(self).source().len() == 0,
            forall|i: int|
                0 <= i < used(old(self).source(), final(self).source()) ==> call_ensures(
                    old(self).function(),
                    (#[trigger] old(self).source()[i],),
                    if i == used(old(self).source(), final(self).source()) - 1 {
                        item
                    } else {
                        None
                    },
                ),
    {
        let ghost all = self.iter.remaining();
        let ghost mut done: int = 0;
        assert(all.skip(0) =~= all);
        loop
            invariant
                self.inv(),
                self.function() == old(self).function(),
                self.image() == old(self).image(),
                self.remaining() == old(self).remaining(),
                all == old(self).source(),
                0 <= done <= all.len(),
                self.iter.remaining() == all.skip(done),
                forall|i: int|
                    0 <= i < done ==> call_ensures(self.f, (#[trigger] all[i],), None::<U>),
            decreases self.iter.remaining().len(),
        {
            proof {
                lemma_computes_on_skipped(self.f, self.image@, self.iter.remaining(), 1);
                if self.iter.remaining().len() > 0 {
                    lemma_filter_map_head(self.image@, self.iter.remaining());
                }
            }
            match self.iter.next() {
                Some(item) => {
                    proof {
                        assert(item == all[done]);
                        assert(all.skip(done).skip(1) =~= all.skip(done + 1));
                    }
                    match (self.f)(item) {
                        Some(mapped) => {
                            proof {
                                let rest = all.skip(done + 1).filter_map(self.image@);
                                assert((seq![mapped] + rest).skip(1) =~= rest);
                            }
                            return Some(mapped);
                        },
                        None => {},
                    }
                    proof {
                        done = done + 1;
                    }
                },
                None => {
                    proof {
                        reveal_with_fuel(Seq::filter_map, 1);
                    }
                    return None;
                },
            }
        }
    }
}

} // verus!
