//! Positions in a sequence of elements: its head, what is left of it after
//! advancing, its prefixes.
use vstd::prelude::*;

verus! {

/// The element that the next advancement yields: the head of `s`, or nothing
/// where `s` is exhausted.
pub open spec fn front<T>(s: Seq<T>) -> Option<T> {
    if s.len() > 0 {
        Some(s[0])
    } else {
        None
    }
}

/// What is left of `s` after `n` advancements. Advancing past the end leaves
/// nothing.
pub open spec fn skipped<T>(s: Seq<T>, n: nat) -> Seq<T> {
    if n <= s.len() {
        s.skip(n as int)
    } else {
        Seq::empty()
    }
}

/// The first `n` elements of `s`, or all of `s` where it is shorter.
pub open spec fn taken<T>(s: Seq<T>, n: nat) -> Seq<T> {
    if n <= s.len() {
        s.take(n as int)
    } else {
        s
    }
}

/// The element at position `n` of `s`, if `s` reaches that far.
pub open spec fn at<T>(s: Seq<T>, n: nat) -> Option<T> {
    if n < s.len() {
        Some(s[n as int])
    } else {
        None
    }
}

/// How many elements were consumed on the way from `before` to `after`.
pub open spec fn used<T>(before: Seq<T>, after: Seq<T>) -> int {
    before.len() - after.len()
}

/// Advancing twice is advancing once by the sum.
pub proof fn lemma_skipped_twice<T>(s: Seq<T>, a: nat, b: nat)
    ensures
        skipped(skipped(s, a), b) == skipped(s, a + b),
{
    assert(skipped(skipped(s, a), b) =~= skipped(s, a + b));
}

} // verus!
