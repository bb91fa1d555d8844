use crate::LendingIterator;
use vstd::prelude::*;

verus! {

/// A lending iterator that knows how many elements it has yet to produce.
pub trait ExactSizeLendingIterator: LendingIterator {
    /// Returns the exact number of elements that remain.
    fn len(&self) -> (len: usize)
        requires
            self.inv(),
        ensures
            len == self.remaining().len(),
    ;

    /// Consumes the lending iterator, returning the last element.
    #[inline]
    fn last(&mut self) -> (item: Option<Self::Item<'_>>)
        requires
            old(self).inv(),
        ensures
            final(self).inv(),
            final(self).remaining().len() == 0,
            item == (if old(self).remaining().len() > 0 {
                Some(old(self).remaining().last())
            } else {
                None
            }),
    {
        self.nth(self.len().saturating_sub(1))
    }
}

} // verus!
