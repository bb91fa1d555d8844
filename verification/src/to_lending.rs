//! The ways into the protocol and out of it: a vector as a lending iterator,
//! and a lending iterator whose items borrow nothing as a vector.
use crate::model::skipped;
use crate::{ExactSizeLendingIterator, LendingIterator};
use core::ops::Range;
use std::collections::VecDeque;
use vstd::prelude::*;

verus! {

/// A lending iterator over the elements that a vector held, from the first
/// to the last. Each element is handed out by value, so nothing that it
/// lends borrows from it.
#[derive(Clone, Debug)]
#[must_use]
pub struct IntoLending<T> {
    items: VecDeque<T>,
}

impl<T: 'static> IntoLending<T> {
    /// Lends the elements of `items`, in their order.
    pub fn new(items: Vec<T>) -> (lender: Self)
        ensures
            lender.inv(),
            lender.remaining() == items@,
    {
        let ghost all = items@;
        let mut rest = items;
        let mut queue: VecDeque<T> = VecDeque::new();
        loop
            invariant
                rest@ + queue@ == all,
            ensures
                queue@ == all,
            decreases rest.len(),
        {
            let ghost before = rest@;
            match rest.pop() {
                Some(x) => {
                    assert(before == rest@.push(x));
                    assert(rest@.push(x) + queue@ =~= rest@ + (seq![x] + queue@));
                    queue.push_front(x);
                },
                None => {
                    assert(rest@ + queue@ =~= queue@);
                    break ;
                },
            }
        }
        IntoLending { items: queue }
    }
}

impl<T: 'static> LendingIterator for IntoLending<T> {
    type Item<'a> = T;

    open spec fn inv(&self) -> bool {
        true
    }

    closed spec fn remaining<'a>(&'a self) -> Seq<T> {
        self.items@
    }

    #[inline]
    fn next(&mut self) -> (item: Option<T>) {
        self.items.pop_front()
    }

    /// Both bounds are the number of elements that are left.
    #[inline]
    fn size_hint(&self) -> (hint: (usize, Option<usize>))
        ensures
            hint == (self.remaining().len() as usize, Some(self.remaining().len() as usize)),
    {
        let len = self.items.len();
        (len, Some(len))
    }
}

impl<T: 'static> ExactSizeLendingIterator for IntoLending<T> {
    #[inline]
    fn len(&self) -> (len: usize) {
        self.items.len()
    }
}

/// A lending iterator over the elements of a vector that it keeps, from the
/// first to the last. Each element is lent by reference: the item borrows
/// from the iterator, and must be let go of before the next one is asked for.
#[derive(Clone, Debug)]
#[must_use]
pub struct LendRefs<T> {
    items: Vec<T>,
    next: usize,
}

impl<T: 'static> LendRefs<T> {
    /// Lends references to the elements of `items`, in their order.
    pub fn new(items: Vec<T>) -> (lender: Self)
        ensures
            lender.inv(),
            lender.remaining() == items@.map_values(|x: T| &x),
    {
        let lender = LendRefs { items, next: 0 };
        assert(lender.remaining() =~= items@.map_values(|x: T| &x));
        lender
    }
}

impl<T: 'static> LendingIterator for LendRefs<T> {
    type Item<'a> = &'a T;

    closed spec fn inv(&self) -> bool {
        self.next <= self.items.len()
    }

    closed spec fn remaining<'a>(&'a self) -> Seq<&'a T> {
        if self.next <= self.items.len() {
            self.items@.skip(self.next as int).map_values(|x: T| &x)
        } else {
            Seq::empty()
        }
    }

    #[inline]
    fn next(&mut self) -> (item: Option<&T>) {
        if self.next < self.items.len() {
            let at = self.next;
            self.next += 1;
            assert(self.remaining() =~= skipped(old(self).remaining(), 1));
            Some(&self.items[at])
        } else {
            None
        }
    }

    /// Both bounds are the number of elements that are left.
    #[inline]
    fn size_hint(&self) -> (hint: (usize, Option<usize>))
        ensures
            hint == (self.remaining().len() as usize, Some(self.remaining().len() as usize)),
    {
        let len = self.items.len() - self.next;
        (len, Some(len))
    }
}

impl<T: 'static> ExactSizeLendingIterator for LendRefs<T> {
    #[inline]
    fn len(&self) -> (len: usize) {
        self.items.len() - self.next
    }
}

/// A lending iterator over the numbers of a range, from its start up to but
/// not including its end. Each number is handed out by value.
#[derive(Clone, Debug)]
#[must_use]
pub struct LendRange {
    next: usize,
    end: usize,
}

impl LendRange {
    /// Lends the numbers from `start` up to but not including `end`; none
    /// where `end` is not above `start`.
    pub fn new(start: usize, end: usize) -> (lender: Self)
        ensures
            lender.inv(),
            lender.remaining() == counting(start, end),
    {
        LendRange { next: start, end }
    }
}

/// The numbers from `start` up to but not including `end`, in rising order.
pub open spec fn counting(start: usize, end: usize) -> Seq<usize> {
    if start < end {
        Seq::new((end - start) as nat, |i: int| (start + i) as usize)
    } else {
        Seq::empty()
    }
}

impl LendingIterator for LendRange {
    type Item<'a> = usize;

    open spec fn inv(&self) -> bool {
        true
    }

    closed spec fn remaining<'a>(&'a self) -> Seq<usize> {
        counting(self.next, self.end)
    }

    #[inline]
    fn next(&mut self) -> (item: Option<usize>) {
        if self.next < self.end {
            let item = self.next;
            self.next += 1;
            assert(counting(item, self.end).skip(1) =~= counting(self.next, self.end));
            Some(item)
        } else {
            None
        }
    }

    /// Both bounds are the number of elements that are left.
    #[inline]
    fn size_hint(&self) -> (hint: (usize, Option<usize>))
        ensures
            hint == (self.remaining().len() as usize, Some(self.remaining().len() as usize)),
    {
        let len = if self.next < self.end {
            self.end - self.next
        } else {
            0
        };
        (len, Some(len))
    }
}

impl ExactSizeLendingIterator for LendRange {
    #[inline]
    fn len(&self) -> (len: usize) {
        if self.next < self.end {
            self.end - self.next
        } else {
            0
        }
    }
}

/// What can be turned into a lending iterator over its elements.
pub trait ToLendingIterator: Sized {
    /// The lending iterator that `self` turns into.
    type Lender: LendingIterator;

    /// The elements of `self`, in the order in which they will be lent.
    spec fn elements(&self) -> Seq<<Self::Lender as LendingIterator>::Item<'_>>;

    /// Turns `self` into a lending iterator over its elements.
    fn into_lending(self) -> (lender: Self::Lender)
        ensures
            lender.inv(),
            lender.remaining() == self.elements(),
    ;
}

impl<T: 'static> ToLendingIterator for Vec<T> {
    type Lender = IntoLending<T>;

    open spec fn elements(&self) -> Seq<T> {
        self@
    }

    #[inline]
    fn into_lending(self) -> (lender: IntoLending<T>) {
        IntoLending::new(self)
    }
}

impl ToLendingIterator for Range<usize> {
    type Lender = LendRange;

    open spec fn elements(&self) -> Seq<usize> {
        counting(self.start, self.end)
    }

    #[inline]
    fn into_lending(self) -> (lender: LendRange) {
        LendRange::new(self.start, self.end)
    }
}

/// Gathers what a lending iterator has yet to produce into a vector. The
/// items must not borrow from the iterator: they are of one type `T` for
/// every call.
pub fn into_vec<T, I>(iter: I) -> (items: Vec<T>) where
    for <'all>I: LendingIterator<Item<'all> = T> + 'static,

    requires
        iter.inv(),
    ensures
        items@ == iter.remaining(),
{
    let mut iter = iter;
    let mut items: Vec<T> = Vec::new();
    let ghost all = iter.remaining();
    loop
        invariant
            iter.inv(),
            items@ + iter.remaining() == all,
        ensures
            items@ == all,
        decreases iter.remaining().len(),
    {
        let ghost rest = iter.remaining();
        match iter.next() {
            Some(x) => {
                assert(items@.push(x) + rest.skip(1) =~= items@ + rest);
                items.push(x);
            },
            None => {
                assert(items@ + rest =~= items@);
                break ;
            },
        }
    }
    items
}

} // verus!
