//! Executable functions and what they compute.
//!
//! A closure is known to the verifier by the relation between what it is
//! given and what it may return. An adapter that maps by a function needs
//! more to say which elements it lends: an image, a function of the element
//! alone, that the function computes.
use crate::model::positions::skipped;
use vstd::prelude::*;

verus! {

/// What the executable function `f` computes by itself: of `x`, a value
/// that `f` may return when called with `x`.
pub open spec fn computes<T, U, F: FnMut(T) -> U>(f: F) -> spec_fn(T) -> U {
    |x: T| choose|y: U| call_ensures(f, (x,), y)
}

/// The executable function `f` may be called on every element of `s`, and
/// whatever it returns is what `image` says.
pub open spec fn computes_on<T, U, F: FnMut(T) -> U>(
    f: F,
    image: spec_fn(T) -> U,
    s: Seq<T>,
) -> bool {
    forall|i: int|
        0 <= i < s.len() ==> call_requires(f, (#[trigger] s[i],)) && forall|y: U|
            call_ensures(f, (s[i],), y) ==> y == image(s[i])
}

/// What an executable function computes on a sequence, it computes on what
/// is left of the sequence after an advancement.
pub proof fn lemma_computes_on_skipped<T, U, F: FnMut(T) -> U>(
    f: F,
    image: spec_fn(T) -> U,
    s: Seq<T>,
    n: nat,
)
    requires
        computes_on(f, image, s),
    ensures
        computes_on(f, image, skipped(s, n)),
{
    let rest = skipped(s, n);
    assert forall|i: int| 0 <= i < rest.len() implies call_requires(f, (#[trigger] rest[i],))
        && forall|y: U| call_ensures(f, (rest[i],), y) ==> y == image(rest[i]) by {
        assert(rest[i] == s[i + n]);
    }
}

/// Filtering and mapping looks at the head first: what `image` makes of the
/// head comes first, if it makes anything of it, and behind it what
/// filtering and mapping leaves of the rest.
pub proof fn lemma_filter_map_head<T, U>(image: spec_fn(T) -> Option<U>, s: Seq<T>)
    requires
        s.len() > 0,
    ensures
        s.filter_map(image) == (match image(s[0]) {
            Some(y) => seq![y] + s.skip(1).filter_map(image),
            None => s.skip(1).filter_map(image),
        }),
    decreases s.len(),
{
    if s.len() == 1 {
        assert(s.drop_last() =~= Seq::<T>::empty());
        assert(s.skip(1) =~= Seq::<T>::empty());
        assert(s.last() == s[0]);
        reveal_with_fuel(Seq::filter_map, 2);
        match image(s[0]) {
            Some(y) => {
                assert(Seq::<U>::empty() + seq![y] =~= seq![y] + Seq::<U>::empty());
            },
            None => {},
        }
    } else {
        let front = s.drop_last();
        lemma_filter_map_head(image, front);
        assert(front[0] == s[0]);
        assert(s.skip(1).drop_last() =~= front.skip(1));
        assert(s.skip(1).last() == s.last());
        let middle = front.skip(1).filter_map(image);
        match (image(s[0]), image(s.last())) {
            (Some(y), Some(z)) => {
                assert((seq![y] + middle) + seq![z] =~= seq![y] + (middle + seq![z]));
            },
            _ => {},
        }
    }
}

} // verus!
