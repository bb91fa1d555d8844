//! Executable predicates and what they decide.
//!
//! A closure is known to the verifier by the relation between what it is
//! given and what it may answer. An adapter that filters by a predicate needs
//! more to say which elements it lends: a verdict, a function of the element
//! alone, that the predicate implements.
use crate::model::positions::skipped;
use vstd::prelude::*;

verus! {

/// The verdict that the executable predicate `p` gives by itself: it holds
/// of `x` where `p` may answer `true` when asked about `x`.
pub open spec fn affirms<T, P: FnMut(&T) -> bool>(p: P) -> spec_fn(T) -> bool {
    |x: T| call_ensures(p, (&x,), true)
}

/// The executable predicate `p` may be asked about every element of `s`, and
/// whatever it answers is what `verdict` says.
pub open spec fn implements_on<T, P: FnMut(&T) -> bool>(
    p: P,
    verdict: spec_fn(T) -> bool,
    s: Seq<T>,
) -> bool {
    forall|i: int|
        0 <= i < s.len() ==> call_requires(p, (&#[trigger] s[i],)) && forall|answer: bool|
            call_ensures(p, (&s[i],), answer) ==> answer == verdict(s[i])
}

/// The length of the longest prefix of `s` of whose elements `verdict`
/// holds.
pub open spec fn leading<T>(verdict: spec_fn(T) -> bool, s: Seq<T>) -> nat
    decreases s.len(),
{
    if s.len() > 0 && verdict(s[0]) {
        1 + leading(verdict, s.skip(1))
    } else {
        0
    }
}

/// The longest accepted prefix lies inside the sequence, `verdict` holds of
/// each of its elements, and does not hold of the element behind it, if
/// there is one.
pub proof fn lemma_leading_is_longest_prefix<T>(verdict: spec_fn(T) -> bool, s: Seq<T>)
    ensures
        leading(verdict, s) <= s.len(),
        forall|i: int| 0 <= i < leading(verdict, s) ==> verdict(#[trigger] s[i]),
        leading(verdict, s) < s.len() ==> !verdict(s[leading(verdict, s) as int]),
    decreases s.len(),
{
    if s.len() > 0 && verdict(s[0]) {
        let rest = s.skip(1);
        lemma_leading_is_longest_prefix(verdict, rest);
        assert forall|i: int| 0 <= i < leading(verdict, s) implies verdict(#[trigger] s[i]) by {
            if i > 0 {
                assert(s[i] == rest[i - 1]);
            }
        }
        if leading(verdict, s) < s.len() {
            assert(s[leading(verdict, s) as int] == rest[leading(verdict, rest) as int]);
        }
    }
}

/// The longest accepted prefix is the only one: a prefix of `s` of whose
/// elements `verdict` holds, and that either is all of `s` or has an element
/// behind it of which `verdict` does not hold, has the length that `leading`
/// gives.
pub proof fn lemma_leading_is_unique<T>(verdict: spec_fn(T) -> bool, s: Seq<T>, n: nat)
    requires
        n <= s.len(),
        forall|i: int| 0 <= i < n ==> verdict(#[trigger] s[i]),
        n < s.len() ==> !verdict(s[n as int]),
    ensures
        leading(verdict, s) == n,
    decreases s.len(),
{
    if s.len() > 0 && verdict(s[0]) {
        let rest = s.skip(1);
        assert(n > 0);
        assert forall|i: int| 0 <= i < n - 1 implies verdict(#[trigger] rest[i]) by {
            assert(rest[i] == s[i + 1]);
        }
        if n - 1 < rest.len() {
            assert(rest[n - 1] == s[n as int]);
        }
        lemma_leading_is_unique(verdict, rest, (n - 1) as nat);
    } else if s.len() > 0 {
        if n > 0 {
            assert(verdict(s[0]));
        }
    }
}

/// What an executable predicate implements on a sequence, it implements on
/// what is left of the sequence after an advancement.
pub proof fn lemma_implements_on_skipped<T, P: FnMut(&T) -> bool>(
    p: P,
    verdict: spec_fn(T) -> bool,
    s: Seq<T>,
    n: nat,
)
    requires
        implements_on(p, verdict, s),
    ensures
        implements_on(p, verdict, skipped(s, n)),
{
    let rest = skipped(s, n);
    assert forall|i: int| 0 <= i < rest.len() implies call_requires(p, (&#[trigger] rest[i],))
        && forall|answer: bool|
        call_ensures(p, (&rest[i],), answer) ==> answer == verdict(rest[i]) by {
        assert(rest[i] == s[i + n]);
    }
}

/// Filtering looks at the head first: the head stays if `verdict` holds of
/// it, and behind it comes what filtering leaves of the rest.
pub proof fn lemma_filter_head<T>(verdict: spec_fn(T) -> bool, s: Seq<T>)
    requires
        s.len() > 0,
    ensures
        s.filter(verdict) == (if verdict(s[0]) {
            seq![s[0]] + s.skip(1).filter(verdict)
        } else {
            s.skip(1).filter(verdict)
        }),
{
    let head = seq![s[0]];
    assert(head + s.skip(1) =~= s);
    Seq::filter_distributes_over_add(head, s.skip(1), verdict);
    reveal_with_fuel(Seq::filter, 2);
    assert(head.drop_last() =~= Seq::<T>::empty());
    assert(head.last() == s[0]);
    if verdict(s[0]) {
        assert(head.filter(verdict) =~= head);
    } else {
        assert(head.filter(verdict) =~= Seq::<T>::empty());
        assert(Seq::<T>::empty() + s.skip(1).filter(verdict) =~= s.skip(1).filter(verdict));
    }
}

} // verus!
