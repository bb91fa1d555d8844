//! Bounds on the number of elements that remain, and what adapters make of
//! the bounds of the iterators that they wrap.
use vstd::prelude::*;

verus! {

/// The bounds for two iterators one after the other: the lower bounds added
/// up as far as a `usize` reaches, and the upper bounds added up if there are
/// two of them and their sum fits.
pub open spec fn added_hints(a: (usize, Option<usize>), b: (usize, Option<usize>)) -> (
    usize,
    Option<usize>,
) {
    (
        if a.0 + b.0 <= usize::MAX {
            (a.0 + b.0) as usize
        } else {
            usize::MAX
        },
        match (a.1, b.1) {
            (Some(x), Some(y)) => if x + y <= usize::MAX {
                Some((x + y) as usize)
            } else {
                None
            },
            _ => None,
        },
    )
}

/// The bounds for two iterators side by side, as far as the shorter reaches:
/// the lesser of the lower bounds, and the lesser of the upper bounds that
/// there are.
pub open spec fn lesser_hints(a: (usize, Option<usize>), b: (usize, Option<usize>)) -> (
    usize,
    Option<usize>,
) {
    (
        if a.0 <= b.0 {
            a.0
        } else {
            b.0
        },
        match (a.1, b.1) {
            (Some(x), Some(y)) => Some(
                if x <= y {
                    x
                } else {
                    y
                },
            ),
            (Some(x), None) => Some(x),
            (None, Some(y)) => Some(y),
            (None, None) => None,
        },
    )
}

/// The bounds for an iterator of which any number of elements may be passed
/// over: none for sure, and no more than there are.
pub open spec fn thinned_hint(inner: (usize, Option<usize>)) -> (usize, Option<usize>) {
    (0, inner.1)
}

} // verus!
