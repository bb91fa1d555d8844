//! Walking a sequence in strides.
use crate::model::positions::{front, skipped};
use vstd::prelude::*;

verus! {

/// How many positions `0, step, 2 * step, ...` lie below `len`: `len`
/// divided by `step`, rounded up.
pub open spec fn stride_count(len: nat, step: nat) -> nat {
    if step == 0 {
        0
    } else {
        ((len + step - 1) / (step as int)) as nat
    }
}

/// The elements of `s` at the positions `0, step, 2 * step, ...`.
pub open spec fn strided<T>(s: Seq<T>, step: nat) -> Seq<T> {
    Seq::new(stride_count(s.len(), step), |i: int| s[i * step])
}

/// `stride_count` rounds up: it is the least number of strides of `step`
/// that cover `len` positions.
pub proof fn lemma_stride_count_is_ceiling(len: nat, step: nat)
    requires
        step > 0,
    ensures
        (stride_count(len, step) - 1) * step < len <= stride_count(len, step) * step,
        len == 0 <==> stride_count(len, step) == 0,
{
    let x = len + step - 1;
    let d = step as int;
    vstd::arithmetic::div_mod::lemma_fundamental_div_mod(x, d);
    vstd::arithmetic::div_mod::lemma_mod_bound(x, d);
    vstd::arithmetic::div_mod::lemma_div_pos_is_pos(x, d);
    let q = x / d;
    assert(stride_count(len, step) == q);
    assert(d * q == q * d) by (nonlinear_arith);
    assert((q - 1) * d == q * d - d) by (nonlinear_arith);
    if q == 0 {
        assert(q * d == 0) by (nonlinear_arith)
            requires
                q == 0,
        ;
    }
    if len == 0 && q > 0 {
        assert(q * d >= d) by (nonlinear_arith)
            requires
                q >= 1,
                d > 0,
        ;
    }
}

/// Every position that a strided walk visits lies inside the sequence.
pub proof fn lemma_stride_in_range(len: nat, step: nat, i: int)
    requires
        step > 0,
        0 <= i < stride_count(len, step),
    ensures
        0 <= i * step < len,
{
    lemma_stride_count_is_ceiling(len, step);
    let c = stride_count(len, step) as int;
    let k = step as int;
    assert(i * k <= (c - 1) * k) by (nonlinear_arith)
        requires
            0 <= i <= c - 1,
            k > 0,
    ;
    assert(0 <= i * k) by (nonlinear_arith)
        requires
            0 <= i,
            k > 0,
    ;
}

/// Taking one element off a strided walk is walking what lies one stride
/// further on.
pub proof fn lemma_strided_advance<T>(s: Seq<T>, step: nat)
    requires
        step > 0,
    ensures
        skipped(strided(s, step), 1) == strided(skipped(s, step), step),
        front(strided(s, step)) == front(s),
{
    let k = step as int;
    let len = s.len();
    let c = stride_count(len, step) as int;
    let rest = skipped(s, step);
    let c2 = stride_count(rest.len(), step) as int;
    lemma_stride_count_is_ceiling(len, step);
    lemma_stride_count_is_ceiling(rest.len(), step);
    if len > 0 {
        lemma_stride_in_range(len, step, 0);
        assert(0 * k == 0);
    }
    // the two walks are equally long
    if len == 0 {
        assert(c == 0 && c2 == 0);
    } else if len <= step {
        assert(c == 1) by (nonlinear_arith)
            requires
                (c - 1) * k < len <= c * k,
                0 < len <= k,
        ;
        assert(rest.len() == 0);
    } else {
        assert(rest.len() == len - step);
        assert(c2 == c - 1) by (nonlinear_arith)
            requires
                (c - 1) * k < len <= c * k,
                (c2 - 1) * k < len - k <= c2 * k,
                k > 0,
        ;
    }
    let left = skipped(strided(s, step), 1);
    let right = strided(rest, step);
    assert(left.len() == right.len());
    assert forall|i: int| 0 <= i < left.len() implies left[i] == right[i] by {
        lemma_stride_in_range(rest.len(), step, i);
        assert((i + 1) * k == i * k + k) by (nonlinear_arith);
        assert(left[i] == s[(i + 1) * k]);
        assert(right[i] == rest[i * k]);
    }
    assert(left =~= right);
}

} // verus!
