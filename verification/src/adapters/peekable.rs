use crate::model::{
    at, fold_callable, folds_to, front, lemma_fold_callable_cons, lemma_folds_to_cons,
    lemma_try_fold_callable_cons, lemma_try_folds_to_cons, lemma_try_folds_to_first, skipped,
    try_fold_callable, try_folds_to,
};
use crate::LendingIterator;
use core::ops::ControlFlow;
use vstd::prelude::*;
use vstd::std_specs::cmp::PartialEqSpec;

verus! {

broadcast use vstd::function::group_function_axioms;

/// What a [`Peekable`] is to its contracts: the slot that holds a look-ahead,
/// and what the inner iterator has yet to produce.
///
/// The slot is `None` while nothing has been looked at, `Some(Some(x))` while
/// `x` has been taken from the inner iterator and not yet handed out, and
/// `Some(None)` once the inner iterator has been found to be at its end.
pub struct PeekState<T> {
    pub slot: Option<Option<T>>,
    pub source: Seq<T>,
}

impl<T> PeekState<T> {
    /// A slot that remembers the end is only ever filled at the end.
    pub open spec fn wf(self) -> bool {
        self.slot == Some(None::<T>) ==> self.source.len() == 0
    }

    /// The elements that are still to be handed out: the one in the slot, if
    /// there is one, and behind it those of the inner iterator.
    pub open spec fn remaining(self) -> Seq<T> {
        match self.slot {
            None => self.source,
            Some(Some(x)) => seq![x] + self.source,
            Some(None) => Seq::empty(),
        }
    }

    /// The state after a look at the next element: an empty slot is filled
    /// from the inner iterator, a filled one is left as it is.
    pub open spec fn peeked(self) -> PeekState<T> {
        match self.slot {
            None => PeekState { slot: Some(front(self.source)), source: skipped(self.source, 1) },
            Some(_) => self,
        }
    }

    /// The state after an ordinary advancement: the slot is emptied, and
    /// where it was empty already the inner iterator is advanced.
    pub open spec fn advanced(self) -> PeekState<T> {
        match self.slot {
            None => PeekState { slot: None, source: skipped(self.source, 1) },
            Some(_) => PeekState { slot: None, source: self.source },
        }
    }

    /// The state after a release: the slot is emptied, whatever it held.
    pub open spec fn released(self) -> PeekState<T> {
        PeekState { slot: None, source: self.source }
    }

    /// What a conditional advancement hands out, and the state that it
    /// leaves, where `holds` says whether the condition holds of the element
    /// in the slot. An element in the slot is handed out if the condition
    /// holds of it, and stays if not. With an empty slot the condition is not
    /// asked, and the inner iterator is advanced.
    pub open spec fn next_if(self, holds: bool) -> (Option<T>, PeekState<T>) {
        match self.slot {
            Some(Some(x)) => if holds {
                (Some(x), self.advanced())
            } else {
                (None, self)
            },
            Some(None) => (None, self),
            None => (front(self.source), self.advanced()),
        }
    }
}

/// Looking twice is looking once: the second look finds the slot filled, so
/// it shows the same element and leaves everything as the first look left
/// it. Neither look takes anything from what remains to be handed out.
pub proof fn lemma_peek_is_idempotent<T>(state: PeekState<T>)
    requires
        state.wf(),
    ensures
        state.peeked().wf(),
        state.peeked().peeked() == state.peeked(),
        state.peeked().remaining() == state.remaining(),
        front(state.peeked().remaining()) == front(state.remaining()),
{
    match state.slot {
        None => {
            if state.source.len() > 0 {
                assert(seq![state.source[0]] + skipped(state.source, 1) =~= state.source);
            }
        },
        Some(_) => {},
    }
}

/// A conditional advancement either hands out the element that was next,
/// which then no longer remains, or hands out nothing and leaves what
/// remains untouched. An element that it hands out from the slot is one of
/// which the condition holds.
///
/// The condition is only put to an element in the slot. With an empty slot
/// the inner iterator's next element is handed out unasked, so of an empty
/// slot this is stated only where the condition holds of that element.
pub proof fn lemma_next_if_consumes_or_keeps<T>(state: PeekState<T>, holds: bool)
    requires
        state.wf(),
        state.slot is None && state.source.len() > 0 ==> holds,
    ensures
        ({
            let (item, after) = state.next_if(holds);
            &&& after.wf()
            &&& item is Some ==> holds && item == front(state.remaining()) && after.remaining()
                == skipped(state.remaining(), 1)
            &&& item is None ==> after.remaining() == state.remaining()
        }),
{
    let (item, after) = state.next_if(holds);
    match state.slot {
        Some(Some(x)) => {
            assert((seq![x] + state.source).skip(1) =~= state.source);
        },
        Some(None) => {},
        None => {},
    }
}

/// A release loses the element in the slot: what remains afterwards starts
/// with the element behind it, and that is what the next advancement hands
/// out.
pub proof fn lemma_release_discards_peeked<T>(state: PeekState<T>)
    requires
        state.wf(),
        state.slot matches Some(Some(_)),
    ensures
        state.released().wf(),
        state.released().remaining() == skipped(state.remaining(), 1),
        front(state.released().remaining()) == at(state.remaining(), 1),
{
    let x = state.slot->0->0;
    assert((seq![x] + state.source).skip(1) =~= state.source);
    if state.source.len() > 0 {
        assert((seq![x] + state.source)[1] == state.source[0]);
    }
}

/// A lending iterator with a `peek()` that returns an optional reference to
/// the next element.
///
/// The look-ahead is kept in a slot that the `Peekable` owns. So the items of
/// the inner iterator must not borrow from it: they are of one type `T` for
/// every call.
///
/// This `struct` is created by the [`peekable`] method on [`LendingIteratorExt`].
///
/// [`peekable`]: crate::LendingIteratorExt::peekable
/// [`LendingIteratorExt`]: crate::LendingIteratorExt
#[derive(Debug)]
#[must_use]
pub struct Peekable<I, T> {
    lender: I,
    peeked: Option<Option<T>>,
}

impl<T, I> View for Peekable<I, T> where for <'all>I: LendingIterator<Item<'all> = T> + 'static {
    type V = PeekState<T>;

    closed spec fn view(&self) -> PeekState<T> {
        PeekState { slot: self.peeked, source: self.lender.remaining() }
    }
}

impl<T, I> Peekable<I, T> where for <'all>I: LendingIterator<Item<'all> = T> + 'static {
    /// The inner iterator. What it has yet to produce is the state's source.
    pub closed spec fn lender(&self) -> I {
        self.lender
    }

    /// Whether the state is well formed: the inner iterator's is, and a slot
    /// that remembers the end is only there at the end.
    pub closed spec fn wf(&self) -> bool {
        self.lender.inv() && self@.wf()
    }

    /// Wraps `iter` with an empty slot.
    pub fn new(iter: I) -> (peekable: Peekable<I, T>)
        ensures
            peekable.wf() == iter.inv(),
            peekable.lender() == iter,
            peekable@ == (PeekState { slot: None, source: iter.remaining() }),
    {
        Peekable { lender: iter, peeked: None }
    }

    /// Fills the slot, if it is empty, and returns what it holds.
    #[inline]
    fn get_peeked(&mut self) -> (slot: &mut Option<T>)
        requires
            old(self).wf(),
        ensures
            *slot == front(old(self)@.remaining()),
            final(self)@ == (PeekState {
                slot: Some(*final(slot)),
                source: old(self)@.peeked().source,
            }),
            (*final(slot) is Some) == (*slot is Some) ==> final(self).wf(),
    {
        if self.peeked.is_none() {
            let item = self.lender.next();
            self.peeked = Some(item);
        }
        assert(self@ == old(self)@.peeked());
        self.peeked.as_mut().unwrap()
    }

    /// Returns a reference to the `next()` value without advancing the
    /// iterator: what remains to be handed out is what it was.
    #[inline]
    pub fn peek(&mut self) -> (item: Option<&T>)
        requires
            old(self).wf(),
        ensures
            final(self).wf(),
            final(self)@ == old(self)@.peeked(),
            final(self)@.remaining() == old(self)@.remaining(),
            item == match front(old(self)@.remaining()) {
                Some(x) => Some(&x),
                None => None,
            },
    {
        self.get_peeked().as_ref()
    }

    /// Returns a mutable reference to the `next()` value without advancing
    /// the iterator. What is written through the reference is what the
    /// iterator hands out next.
    #[inline]
    pub fn peek_mut(&mut self) -> (item: Option<&mut T>)
        requires
            old(self).wf(),
        ensures
            final(self).wf(),
            match item {
                Some(x) => front(old(self)@.remaining()) == Some(*x) && final(self)@ == (PeekState {
                    slot: Some(Some(*final(x))),
                    source: old(self)@.peeked().source,
                }),
                None => front(old(self)@.remaining()) is None && final(self)@
                    == old(self)@.peeked(),
            },
    {
        self.get_peeked().as_mut()
    }

    /// Consume and return the next value of this iterator if a condition is
    /// true.
    ///
    /// The condition is put to an element that waits in the slot, and only
    /// to such a one: that element is handed out if the condition holds of
    /// it, and stays where it is if not. Where the slot is empty the call is
    /// an ordinary advancement of the inner iterator, and the condition is
    /// not asked.
    pub fn next_if<F>(&mut self, f: F) -> (item: Option<T>) where F: FnOnce(&T) -> bool
        requires
            old(self).wf(),
            old(self)@.slot matches Some(Some(x)) ==> call_requires(f, (&x,)),
        ensures
            final(self).wf(),
            (item, final(self)@) == old(self)@.next_if(item is Some),
            old(self)@.slot matches Some(Some(x)) ==> call_ensures(f, (&x,), item is Some),
    {
        match &self.peeked {
            Some(Some(v)) => {
                if !f(v) {
                    return None;
                }
            },
            None => return self.lender.next(),
            Some(None) => return None,
        }
        self.peeked.take().unwrap()
    }

    /// Consume and return the next item if it is equal to `expected`.
    ///
    /// As with [`next_if`](Self::next_if), only an element that waits in the
    /// slot is compared.
    pub fn next_if_eq<U>(&mut self, t: &U) -> (item: Option<T>) where U: PartialEq<T>
        requires
            old(self).wf(),
        ensures
            final(self).wf(),
            (item, final(self)@) == old(self)@.next_if(item is Some),
            old(self)@.slot matches Some(Some(x)) ==> (U::obeys_eq_spec() ==> (item is Some
                <==> t.eq_spec(&x))),
    {
        let is_expected = |v: &T| -> (same: bool)
            ensures
                U::obeys_eq_spec() ==> same == t.eq_spec(v),
            { t == v };
        self.next_if(is_expected)
    }

    /// Drop any peeked value and release the iterator.
    ///
    /// An element that waits in the slot is lost: the next advancement hands
    /// out the element behind it.
    #[inline]
    pub fn unpin(&mut self) -> (released: &mut Self)
        ensures
            old(self).wf() ==> released.wf(),
            released@ == old(self)@.released(),
            *final(self) == *final(released),
    {
        self.peeked = None;
        self
    }
}

/// The source of a `Peekable`'s state is what its inner iterator has yet to
/// produce, and the inner iterator is well formed where the `Peekable` is.
pub proof fn lemma_lender_holds_the_source<T, I>(peekable: Peekable<I, T>) where
    for <'all>I: LendingIterator<Item<'all> = T> + 'static,

    ensures
        peekable@.source == peekable.lender().remaining(),
        peekable.wf() ==> peekable.lender().inv(),
{
}

impl<T, I> LendingIterator for Peekable<I, T> where
    for <'all>I: LendingIterator<Item<'all> = T> + 'static,
    T: 'static,
 {
    type Item<'a> = T;

    open spec fn inv(&self) -> bool {
        self.wf()
    }

    open spec fn remaining<'a>(&'a self) -> Seq<T> {
        self@.remaining()
    }

    /// Hands out the element that waits in the slot, if there is one, and
    /// the inner iterator's next element if not.
    fn next(&mut self) -> (item: Option<T>)
        ensures
            final(self)@ == old(self)@.advanced(),
    {
        match self.peeked.take() {
            Some(peeked) => peeked,
            None => self.lender.next(),
        }
    }

    /// Counts the element that waits in the slot together with those of the
    /// inner iterator.
    #[inline]
    fn count(self) -> (n: usize) {
        let Peekable { lender, peeked } = self;
        match peeked {
            Some(None) => 0,
            Some(Some(_)) => 1 + lender.count(),
            None => lender.count(),
        }
    }

    /// The element that waits in the slot is the one at position zero.
    #[inline]
    fn nth(&mut self, n: usize) -> (item: Option<T>)
        ensures
            final(self)@.slot is None,
    {
        match self.peeked.take() {
            Some(None) => None,
            Some(Some(v)) => {
                if n == 0 {
                    Some(v)
                } else {
                    self.lender.nth(n - 1)
                }
            },
            None => self.lender.nth(n),
        }
    }

    /// With the end in the slot nothing remains, and with an element in it
    /// at least that one; with an empty slot the inner iterator's bounds
    /// hold.
    #[inline]
    fn size_hint(&self) -> (hint: (usize, Option<usize>))
        ensures
            self@.slot == Some(None::<T>) ==> hint == (0usize, Some(0usize)),
            self@.slot matches Some(Some(_)) ==> hint == (1usize, None::<usize>),
            self@.slot is None ==> call_ensures(I::size_hint, (&self.lender(),), hint),
    {
        match self.peeked {
            Some(None) => (0, Some(0)),
            Some(Some(_)) => (1, None),
            None => self.lender.size_hint(),
        }
    }

    /// The element that waits in the slot is the first to be folded in.
    #[inline]
    fn try_fold<B, F, R>(&mut self, init: B, f: F) -> (out: ControlFlow<R, B>) where
        Self: Sized + 'static,
        for <'all>F: FnMut(B, Self::Item<'all>) -> ControlFlow<R, B>,

        ensures
            final(self)@.slot is None,
    {
        let mut step = f;
        let ghost source = self.lender.remaining();
        assert(source.skip(0) =~= source);
        let acc = match self.peeked.take() {
            Some(None) => {
                return ControlFlow::Continue(init);
            },
            Some(Some(v)) => {
                proof {
                    assert((seq![v] + source).skip(1) =~= source);
                    assert((seq![v] + source)[0] == v);
                    lemma_try_fold_callable_cons(f, v, source, init, init);
                }
                match step(init, v) {
                    ControlFlow::Continue(acc) => {
                        proof {
                            lemma_try_fold_callable_cons(f, v, source, init, acc);
                        }
                        let out = self.lender.try_fold(acc, step);
                        proof {
                            let rest = self.lender.remaining();
                            let inner = (source.len() - rest.len()) as nat;
                            lemma_try_folds_to_cons(f, v, source, init, acc, inner, out);
                            assert((seq![v] + source).skip(inner as int + 1) =~= source.skip(
                                inner as int,
                            ));
                        }
                        return out;
                    },
                    ControlFlow::Break(residual) => {
                        proof {
                            lemma_try_folds_to_first(
                                f,
                                seq![v] + source,
                                init,
                                ControlFlow::<R, B>::Break(residual),
                            );
                        }
                        return ControlFlow::Break(residual);
                    },
                }
            },
            None => init,
        };
        self.lender.try_fold(acc, step)
    }

    /// The element that waits in the slot is the first to be folded in.
    #[inline]
    fn fold<B, F>(self, init: B, f: F) -> (out: B) where
        Self: Sized,
        for <'all>F: FnMut(B, T) -> B,
     {
        let Peekable { lender, peeked } = self;
        let mut step = f;
        let ghost source = lender.remaining();
        match peeked {
            Some(None) => init,
            Some(Some(v)) => {
                proof {
                    lemma_fold_callable_cons(f, v, source, init, init);
                }
                let acc = step(init, v);
                proof {
                    lemma_fold_callable_cons(f, v, source, init, acc);
                }
                let out = lender.fold(acc, step);
                proof {
                    lemma_folds_to_cons(f, v, source, init, acc, out);
                }
                out
            },
            None => lender.fold(init, step),
        }
    }
}

} // verus!
