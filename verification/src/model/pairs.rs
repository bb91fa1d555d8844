//! Elements in pairs: with the elements of another sequence, or with their
//! numbers.
use vstd::prelude::*;

verus! {

/// The pairs of the elements of `a` and `b` that stand at the same position,
/// as far as the shorter of the two reaches.
pub open spec fn zipped<S, T>(a: Seq<S>, b: Seq<T>) -> Seq<(S, T)> {
    Seq::new(
        if a.len() <= b.len() {
            a.len()
        } else {
            b.len()
        },
        |i: int| (a[i], b[i]),
    )
}

/// The elements of `s`, each with its number: the first with `start`, the
/// next with one more, and so on.
pub open spec fn numbered<T>(s: Seq<T>, start: usize) -> Seq<(usize, T)> {
    Seq::new(s.len(), |i: int| ((start + i) as usize, s[i]))
}

} // verus!
