//! Folding a sequence with an executable function, said as a relation
//! between where the fold starts and where it may end.
use vstd::prelude::*;

verus! {

/// `out` is what folding `s` into `init` with `f` may give: `f` is applied to
/// the accumulator and to each element of `s` in turn, from the first to the
/// last, once each.
pub open spec fn folds_to<T, B, F: FnMut(B, T) -> B>(f: F, s: Seq<T>, init: B, out: B) -> bool
    decreases s.len(),
{
    if s.len() == 0 {
        out == init
    } else {
        exists|mid: B|
            #![trigger call_ensures(f, (mid, s.last()), out)]
            folds_to(f, s.drop_last(), init, mid) && call_ensures(f, (mid, s.last()), out)
    }
}

/// `f` may be called at every step of folding `s` into `init`.
pub open spec fn fold_callable<T, B, F: FnMut(B, T) -> B>(f: F, s: Seq<T>, init: B) -> bool {
    forall|k: int, acc: B|
        0 <= k < s.len() && #[trigger] folds_to(f, s.take(k), init, acc) ==> call_requires(
            f,
            (acc, s[k]),
        )
}

/// Folding one element more: a fold of `s` followed by one application of
/// `f` to `x` is a fold of `s.push(x)`.
pub proof fn lemma_folds_to_push<T, B, F: FnMut(B, T) -> B>(
    f: F,
    s: Seq<T>,
    x: T,
    init: B,
    mid: B,
    out: B,
)
    requires
        folds_to(f, s, init, mid),
        call_ensures(f, (mid, x), out),
    ensures
        folds_to(f, s.push(x), init, out),
{
    assert(s.push(x).drop_last() =~= s);
    assert(s.push(x).last() == x);
}

/// Folding with one element in front: one application of `f` to `x`
/// followed by a fold of `s` is a fold of `x` and then `s`.
pub proof fn lemma_folds_to_cons<T, B, F: FnMut(B, T) -> B>(
    f: F,
    x: T,
    s: Seq<T>,
    init: B,
    mid: B,
    out: B,
)
    requires
        call_ensures(f, (init, x), mid),
        folds_to(f, s, mid, out),
    ensures
        folds_to(f, seq![x] + s, init, out),
    decreases s.len(),
{
    let t = seq![x] + s;
    if s.len() == 0 {
        assert(t.drop_last() =~= Seq::<T>::empty());
        assert(t.last() == x);
        assert(folds_to(f, t.drop_last(), init, init));
    } else {
        let m = choose|m: B|
            #![trigger call_ensures(f, (m, s.last()), out)]
            folds_to(f, s.drop_last(), mid, m) && call_ensures(f, (m, s.last()), out);
        lemma_folds_to_cons(f, x, s.drop_last(), init, mid, m);
        assert(t.drop_last() =~= seq![x] + s.drop_last());
        assert(t.last() == s.last());
    }
}

/// Where `f` may be called at every step of a fold of `x` and then `s`, it
/// may be called on `x`, and at every step of the fold of `s` that follows.
pub proof fn lemma_fold_callable_cons<T, B, F: FnMut(B, T) -> B>(
    f: F,
    x: T,
    s: Seq<T>,
    init: B,
    mid: B,
)
    requires
        fold_callable(f, seq![x] + s, init),
    ensures
        call_requires(f, (init, x)),
        call_ensures(f, (init, x), mid) ==> fold_callable(f, s, mid),
{
    let t = seq![x] + s;
    assert(t.take(0) =~= Seq::<T>::empty());
    assert(folds_to(f, t.take(0), init, init));
    assert(t[0] == x);
    if call_ensures(f, (init, x), mid) {
        assert forall|k: int, acc: B|
            0 <= k < s.len() && #[trigger] folds_to(f, s.take(k), mid, acc) implies call_requires(
            f,
            (acc, s[k]),
        ) by {
            lemma_folds_to_cons(f, x, s.take(k), init, mid, acc);
            assert(t.take(k + 1) =~= seq![x] + s.take(k));
            assert(t[k + 1] == s[k]);
        }
    }
}

/// A fold that adds one for each element counts the elements.
pub proof fn lemma_counting_fold<T, F: FnMut(usize, T) -> usize>(f: F, s: Seq<T>, out: usize)
    requires
        forall|count: usize, x: T, next: usize| #[trigger]
            call_ensures(f, (count, x), next) ==> next == count + 1,
        folds_to(f, s, 0, out),
    ensures
        out == s.len(),
    decreases s.len(),
{
    if s.len() > 0 {
        let mid = choose|mid: usize|
            #![trigger call_ensures(f, (mid, s.last()), out)]
            folds_to(f, s.drop_last(), 0, mid) && call_ensures(f, (mid, s.last()), out);
        lemma_counting_fold(f, s.drop_last(), mid);
    }
}

/// `f` may be called on every element of `s`.
pub open spec fn each_callable<T, O, F: FnMut(T) -> O>(f: F, s: Seq<T>) -> bool {
    forall|i: int| 0 <= i < s.len() ==> call_requires(f, (#[trigger] s[i],))
}

/// `f` was called on every element of `s`.
pub open spec fn visits<T, F: FnMut(T)>(f: F, s: Seq<T>) -> bool {
    forall|i: int| 0 <= i < s.len() ==> call_ensures(f, (#[trigger] s[i],), ())
}

} // verus!
