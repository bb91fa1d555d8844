//! Folding a sequence with an executable function that may ask to stop.
use core::ops::ControlFlow;
use vstd::prelude::*;

verus! {

/// `acc` is what folding `s` into `init` with the fallible `f` may give where
/// no step asks to stop.
pub open spec fn continues_to<T, B, R, F: FnMut(B, T) -> ControlFlow<R, B>>(
    f: F,
    s: Seq<T>,
    init: B,
    acc: B,
) -> bool
    decreases s.len(),
{
    if s.len() == 0 {
        acc == init
    } else {
        exists|mid: B|
            #![trigger call_ensures(f, (mid, s.last()), ControlFlow::<R, B>::Continue(acc))]
            continues_to(f, s.drop_last(), init, mid) && call_ensures(
                f,
                (mid, s.last()),
                ControlFlow::<R, B>::Continue(acc),
            )
    }
}

/// `out` is what folding `s` into `init` with the fallible `f` may give when
/// exactly the first `used` elements of `s` are consumed. Either every
/// element is consumed and no step asked to stop, or the step on the last
/// consumed element is the first to ask, and `out` is its answer, unaltered.
pub open spec fn try_folds_to<T, B, R, F: FnMut(B, T) -> ControlFlow<R, B>>(
    f: F,
    s: Seq<T>,
    init: B,
    used: nat,
    out: ControlFlow<R, B>,
) -> bool {
    &&& used <= s.len()
    &&& match out {
        ControlFlow::Continue(acc) => used == s.len() && continues_to(f, s, init, acc),
        ControlFlow::Break(_) => used > 0 && exists|mid: B|
            #![trigger call_ensures(f, (mid, s[used - 1]), out)]
            continues_to(f, s.take(used - 1), init, mid) && call_ensures(
                f,
                (mid, s[used - 1]),
                out,
            ),
    }
}

/// `f` may be called at every step of folding `s` into `init` that is
/// reached without a request to stop.
pub open spec fn try_fold_callable<T, B, R, F: FnMut(B, T) -> ControlFlow<R, B>>(
    f: F,
    s: Seq<T>,
    init: B,
) -> bool {
    forall|k: int, acc: B|
        0 <= k < s.len() && #[trigger] continues_to(f, s.take(k), init, acc) ==> call_requires(
            f,
            (acc, s[k]),
        )
}

/// Continuing by one element more.
pub proof fn lemma_continues_to_push<T, B, R, F: FnMut(B, T) -> ControlFlow<R, B>>(
    f: F,
    s: Seq<T>,
    x: T,
    init: B,
    mid: B,
    acc: B,
)
    requires
        continues_to(f, s, init, mid),
        call_ensures(f, (mid, x), ControlFlow::<R, B>::Continue(acc)),
    ensures
        continues_to(f, s.push(x), init, acc),
{
    assert(s.push(x).drop_last() =~= s);
    assert(s.push(x).last() == x);
}

/// Continuing with one element in front.
pub proof fn lemma_continues_to_cons<T, B, R, F: FnMut(B, T) -> ControlFlow<R, B>>(
    f: F,
    x: T,
    s: Seq<T>,
    init: B,
    mid: B,
    acc: B,
)
    requires
        call_ensures(f, (init, x), ControlFlow::<R, B>::Continue(mid)),
        continues_to(f, s, mid, acc),
    ensures
        continues_to(f, seq![x] + s, init, acc),
    decreases s.len(),
{
    let t = seq![x] + s;
    if s.len() == 0 {
        assert(t.drop_last() =~= Seq::<T>::empty());
        assert(t.last() == x);
        assert(continues_to(f, t.drop_last(), init, init));
    } else {
        let m = choose|m: B|
            #![trigger call_ensures(f, (m, s.last()), ControlFlow::<R, B>::Continue(acc))]
            continues_to(f, s.drop_last(), mid, m) && call_ensures(
                f,
                (m, s.last()),
                ControlFlow::<R, B>::Continue(acc),
            );
        lemma_continues_to_cons(f, x, s.drop_last(), init, mid, m);
        assert(t.drop_last() =~= seq![x] + s.drop_last());
        assert(t.last() == s.last());
    }
}

/// Where the fallible `f` may be called at every step that a fold of `x` and
/// then `s` reaches, it may be called on `x`, and, where that call asks to
/// continue, at every step that the fold of `s` reaches.
pub proof fn lemma_try_fold_callable_cons<T, B, R, F: FnMut(B, T) -> ControlFlow<R, B>>(
    f: F,
    x: T,
    s: Seq<T>,
    init: B,
    mid: B,
)
    requires
        try_fold_callable(f, seq![x] + s, init),
    ensures
        call_requires(f, (init, x)),
        call_ensures(f, (init, x), ControlFlow::<R, B>::Continue(mid)) ==> try_fold_callable(
            f,
            s,
            mid,
        ),
{
    let t = seq![x] + s;
    assert(t.take(0) =~= Seq::<T>::empty());
    assert(continues_to(f, t.take(0), init, init));
    assert(t[0] == x);
    if call_ensures(f, (init, x), ControlFlow::<R, B>::Continue(mid)) {
        assert forall|k: int, acc: B|
            0 <= k < s.len() && #[trigger] continues_to(
                f,
                s.take(k),
                mid,
                acc,
            ) implies call_requires(f, (acc, s[k])) by {
            lemma_continues_to_cons(f, x, s.take(k), init, mid, acc);
            assert(t.take(k + 1) =~= seq![x] + s.take(k));
            assert(t[k + 1] == s[k]);
        }
    }
}

/// A short-circuiting fold with one element in front, where the step on
/// that element asks to continue.
pub proof fn lemma_try_folds_to_cons<T, B, R, F: FnMut(B, T) -> ControlFlow<R, B>>(
    f: F,
    x: T,
    s: Seq<T>,
    init: B,
    mid: B,
    used: nat,
    out: ControlFlow<R, B>,
)
    requires
        call_ensures(f, (init, x), ControlFlow::<R, B>::Continue(mid)),
        try_folds_to(f, s, mid, used, out),
    ensures
        try_folds_to(f, seq![x] + s, init, used + 1, out),
{
    let t = seq![x] + s;
    match out {
        ControlFlow::Continue(acc) => {
            lemma_continues_to_cons(f, x, s, init, mid, acc);
        },
        ControlFlow::Break(_) => {
            let m = choose|m: B|
                #![trigger call_ensures(f, (m, s[used - 1]), out)]
                continues_to(f, s.take(used - 1), mid, m) && call_ensures(
                    f,
                    (m, s[used - 1]),
                    out,
                );
            lemma_continues_to_cons(f, x, s.take(used - 1), init, mid, m);
            assert(t.take(used + 1 - 1) =~= seq![x] + s.take(used - 1));
            assert(t[used + 1 - 1] == s[used - 1]);
        },
    }
}

/// A short-circuiting fold that the step on the first element ends.
pub proof fn lemma_try_folds_to_first<T, B, R, F: FnMut(B, T) -> ControlFlow<R, B>>(
    f: F,
    s: Seq<T>,
    init: B,
    out: ControlFlow<R, B>,
)
    requires
        s.len() > 0,
        out is Break,
        call_ensures(f, (init, s[0]), out),
    ensures
        try_folds_to(f, s, init, 1, out),
{
    assert(s.take(0) =~= Seq::<T>::empty());
    assert(continues_to(f, s.take(1 - 1), init, init));
}

/// `out` is what calling the fallible `f` on the elements of `s` in turn may
/// give when exactly the first `used` elements of `s` are consumed. Either
/// every element is consumed and no call asked to stop, or the call on the
/// last consumed element is the first to ask, and `out` is its answer,
/// unaltered.
pub open spec fn try_visits<T, R, F: FnMut(T) -> ControlFlow<R, ()>>(
    f: F,
    s: Seq<T>,
    used: nat,
    out: ControlFlow<R, ()>,
) -> bool {
    &&& used <= s.len()
    &&& match out {
        ControlFlow::Continue(_) => {
            &&& used == s.len()
            &&& forall|i: int|
                0 <= i < used ==> call_ensures(
                    f,
                    (#[trigger] s[i],),
                    ControlFlow::<R, ()>::Continue(()),
                )
        },
        ControlFlow::Break(_) => {
            &&& used > 0
            &&& forall|i: int|
                0 <= i < used - 1 ==> call_ensures(
                    f,
                    (#[trigger] s[i],),
                    ControlFlow::<R, ()>::Continue(()),
                )
            &&& call_ensures(f, (s[used - 1],), out)
        },
    }
}

} // verus!
