use crate::model::{
    at, continues_to, each_callable, fold_callable, folds_to, front, lemma_continues_to_push,
    lemma_counting_fold, lemma_folds_to_push, skipped, try_fold_callable, try_folds_to,
    try_visits, used, visits,
};
use core::ops::ControlFlow;
use vstd::prelude::*;

verus! {

broadcast use vstd::function::group_function_axioms;

/// Like [`Iterator`], but an item may borrow from `&mut self`.
///
/// The rules of borrowing therefore make the caller finish with one item
/// before asking for the next.
///
/// An iterator is modelled by the sequence of the elements that it has yet
/// to produce, [`remaining`](Self::remaining). The sequence is finite, and an
/// iterator that has reached its end stays at its end.
#[must_use]
pub trait LendingIterator {
    /// The type of the elements being iterated over.
    type Item<'a> where Self: 'a;

    /// Whether the iterator's state is well formed. Constructors establish
    /// it and every operation keeps it.
    spec fn inv(&self) -> bool;

    /// The elements that are still to be produced, in the order in which
    /// [`next`](Self::next) hands them out.
    spec fn remaining<'a>(&'a self) -> Seq<Self::Item<'a>>;

    /// Advances the lending iterator and returns the next value.
    fn next(&mut self) -> (item: Option<Self::Item<'_>>)
        requires
            old(self).inv(),
        ensures
            final(self).inv(),
            item == front(old(self).remaining()),
            final(self).remaining() == skipped(old(self).remaining(), 1),
    ;

    /// Returns bounds on the number of elements that remain: never more than
    /// the first, and never less than the second where there is one.
    #[inline]
    fn size_hint(&self) -> (hint: (usize, Option<usize>))
        requires
            self.inv(),
        ensures
            hint.0 <= self.remaining().len(),
            hint.1 matches Some(upper) ==> self.remaining().len() <= upper,
        default_ensures
            hint == (0usize, None::<usize>),
    {
        (0, None)
    }

    /// Returns the number of items in the lending iterator, which it
    /// consumes.
    #[inline]
    fn count(self) -> (n: usize) where Self: Sized
        requires
            self.inv(),
            self.remaining().len() <= usize::MAX,
        ensures
            n == self.remaining().len(),
    {
        let ghost all = self.remaining();
        let bump = |count: usize, _item: Self::Item<'_>| -> (next: usize)
            requires
                count < usize::MAX,
            ensures
                next == count + 1,
            { count + 1 };
        proof {
            assert forall|k: int, acc: usize|
                0 <= k < all.len() && #[trigger] folds_to(
                    bump,
                    all.take(k),
                    0,
                    acc,
                ) implies call_requires(bump, (acc, all[k])) by {
                lemma_counting_fold(bump, all.take(k), acc);
            }
        }
        let n = self.fold(0, bump);
        proof {
            lemma_counting_fold(bump, all, n);
        }
        n
    }

    /// Advances the lending iterator by `n` elements.
    ///
    /// Where fewer than `n` elements remain, all of them are consumed and the
    /// error holds the number of steps that could not be taken, which is
    /// never zero.
    #[inline]
    fn advance_by(&mut self, n: usize) -> (outcome: Result<(), usize>)
        requires
            old(self).inv(),
        ensures
            final(self).inv(),
            final(self).remaining() == skipped(old(self).remaining(), n as nat),
            n <= old(self).remaining().len() <==> outcome is Ok,
            outcome matches Err(shortfall) ==> shortfall == n - old(self).remaining().len(),
    {
        let mut i: usize = 0;
        while i < n
            invariant
                self.inv(),
                i <= n,
                i <= old(self).remaining().len(),
                self.remaining() == skipped(old(self).remaining(), i as nat),
            decreases n - i,
        {
            if self.next().is_none() {
                return Err(n - i);
            }
            i += 1;
        }
        Ok(())
    }

    /// Returns the `n`th element of the lending iterator, counting from
    /// zero, and consumes everything up to and including it.
    #[inline]
    fn nth(&mut self, n: usize) -> (item: Option<Self::Item<'_>>)
        requires
            old(self).inv(),
        ensures
            final(self).inv(),
            item == at(old(self).remaining(), n as nat),
            final(self).remaining() == skipped(old(self).remaining(), n as nat + 1),
    {
        if self.advance_by(n).is_err() {
            return None;
        }
        self.next()
    }

    /// Applies a fallible function to each element, stopping at the first
    /// call that asks to stop and returning its answer as it is. It is a
    /// short-circuiting fold whose accumulator is the unit.
    #[inline]
    fn try_for_each<F, R>(&mut self, f: F) -> (out: ControlFlow<R, ()>) where
        Self: Sized + 'static,
        for <'all>F: FnMut(Self::Item<'all>) -> ControlFlow<R, ()>,

        requires
            old(self).inv(),
            each_callable(f, old(self).remaining()),
        ensures
            final(self).inv(),
            0 <= used(old(self).remaining(), final(self).remaining()),
            final(self).remaining() == old(self).remaining().skip(
                used(old(self).remaining(), final(self).remaining()),
            ),
            try_visits(
                f,
                old(self).remaining(),
                used(old(self).remaining(), final(self).remaining()) as nat,
                out,
            ),
    {
        let mut visit = f;
        let ghost all = self.remaining();
        let ghost mut done: int = 0;
        assert(all.skip(0) =~= all);
        loop
            invariant
                self.inv(),
                visit == f,
                all == old(self).remaining(),
                0 <= done <= all.len(),
                self.remaining() == all.skip(done),
                each_callable(f, all),
                forall|i: int|
                    0 <= i < done ==> call_ensures(
                        f,
                        (#[trigger] all[i],),
                        ControlFlow::<R, ()>::Continue(()),
                    ),
            decreases self.remaining().len(),
        {
            match self.next() {
                Some(x) => {
                    proof {
                        assert(x == all[done]);
                        assert(all.skip(done).skip(1) =~= all.skip(done + 1));
                    }
                    match visit(x) {
                        ControlFlow::Continue(unit) => {
                            proof {
                                assert(unit == ());
                                done = done + 1;
                            }
                        },
                        ControlFlow::Break(residual) => {
                            return ControlFlow::Break(residual);
                        },
                    }
                },
                None => {
                    return ControlFlow::Continue(());
                },
            }
        }
    }

    /// Calls a closure on each element of the lending iterator, in the order
    /// in which the elements are produced. It is a fold whose accumulator is
    /// the unit.
    #[inline]
    fn for_each<F>(self, f: F) where
        Self: Sized,
        for <'all>F: FnMut(Self::Item<'all>),

        requires
            self.inv(),
            each_callable(f, self.remaining()),
        ensures
            visits(f, self.remaining()),
    {
        let mut iter = self;
        let mut visit = f;
        let ghost all = iter.remaining();
        let ghost mut done: int = 0;
        assert(all.skip(0) =~= all);
        loop
            invariant
                iter.inv(),
                visit == f,
                0 <= done <= all.len(),
                iter.remaining() == all.skip(done),
                each_callable(f, all),
                forall|i: int| 0 <= i < done ==> call_ensures(f, (#[trigger] all[i],), ()),
            ensures
                visits(f, all),
            decreases iter.remaining().len(),
        {
            match iter.next() {
                Some(x) => {
                    proof {
                        assert(x == all[done]);
                        assert(all.skip(done).skip(1) =~= all.skip(done + 1));
                    }
                    visit(x);
                    proof {
                        done = done + 1;
                    }
                },
                None => {
                    break ;
                },
            }
        }
    }

    /// Applies a function as long as it asks to continue, producing a single,
    /// final value. The moment the function asks to stop, the traversal ends
    /// and its answer is returned as it is; the elements behind the one that
    /// stopped the traversal remain.
    #[inline]
    fn try_fold<B, F, R>(&mut self, init: B, f: F) -> (out: ControlFlow<R, B>) where
        Self: Sized + 'static,
        for <'all>F: FnMut(B, Self::Item<'all>) -> ControlFlow<R, B>,

        requires
            old(self).inv(),
            try_fold_callable(f, old(self).remaining(), init),
        ensures
            final(self).inv(),
            0 <= used(old(self).remaining(), final(self).remaining()),
            final(self).remaining() == old(self).remaining().skip(
                used(old(self).remaining(), final(self).remaining()),
            ),
            try_folds_to(
                f,
                old(self).remaining(),
                init,
                used(old(self).remaining(), final(self).remaining()) as nat,
                out,
            ),
    {
        let mut step = f;
        let mut acc = init;
        let ghost all = self.remaining();
        let ghost mut done: int = 0;
        assert(all.take(0) =~= Seq::empty());
        assert(all.skip(0) =~= all);
        loop
            invariant
                self.inv(),
                step == f,
                all == old(self).remaining(),
                0 <= done <= all.len(),
                self.remaining() == all.skip(done),
                continues_to(f, all.take(done), init, acc),
                try_fold_callable(f, all, init),
            decreases self.remaining().len(),
        {
            match self.next() {
                Some(x) => {
                    let ghost before = acc;
                    match step(acc, x) {
                        ControlFlow::Continue(next) => {
                            acc = next;
                            proof {
                                lemma_continues_to_push(f, all.take(done), x, init, before, acc);
                                assert(all.take(done).push(x) =~= all.take(done + 1));
                                assert(all.skip(done).skip(1) =~= all.skip(done + 1));
                                done = done + 1;
                            }
                        },
                        ControlFlow::Break(residual) => {
                            proof {
                                assert(all.skip(done).skip(1) =~= all.skip(done + 1));
                                assert(x == all[done + 1 - 1]);
                            }
                            return ControlFlow::Break(residual);
                        },
                    }
                },
                None => {
                    assert(all.take(done) =~= all);
                    return ControlFlow::Continue(acc);
                },
            }
        }
    }

    /// Folds every element into an accumulator by applying an operation,
    /// returning the final result. The elements are visited in the order in
    /// which they are produced, once each.
    #[inline]
    fn fold<B, F>(self, init: B, f: F) -> (out: B) where
        Self: Sized,
        for <'all>F: FnMut(B, Self::Item<'all>) -> B,

        requires
            self.inv(),
            fold_callable(f, self.remaining(), init),
        ensures
            folds_to(f, self.remaining(), init, out),
    {
        let mut iter = self;
        let mut step = f;
        let mut accum = init;
        let ghost all = iter.remaining();
        let ghost mut done: int = 0;
        assert(all.take(0) =~= Seq::empty());
        loop
            invariant
                iter.inv(),
                step == f,
                0 <= done <= all.len(),
                iter.remaining() == all.skip(done),
                folds_to(f, all.take(done), init, accum),
                fold_callable(f, all, init),
            ensures
                folds_to(f, all, init, accum),
            decreases iter.remaining().len(),
        {
            match iter.next() {
                Some(x) => {
                    let ghost before = accum;
                    accum = step(accum, x);
                    proof {
                        lemma_folds_to_push(f, all.take(done), x, init, before, accum);
                        assert(all.take(done).push(x) =~= all.take(done + 1));
                        done = done + 1;
                    }
                },
                None => {
                    assert(all.take(done) =~= all);
                    break ;
                },
            }
        }
        accum
    }
}

} // verus!
