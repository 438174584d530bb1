//! Facts about products and quotients.

use vstd::arithmetic::div_mod::{
    lemma_fundamental_div_mod, lemma_fundamental_div_mod_converse, lemma_mod_bound,
};
use vstd::prelude::*;

verus! {

/// Dividing `q * d + r` by `d` gives back quotient and remainder.
pub proof fn lemma_div_mod_unique(q: int, d: int, r: int)
    requires
        0 <= r < d,
    ensures
        (q * d + r) / d == q,
        (q * d + r) % d == r,
{
    lemma_fundamental_div_mod_converse(q * d + r, d, q, r);
}

/// `x` is its quotient times the divisor plus its remainder.
pub proof fn lemma_div_mod_split(x: int, d: int)
    requires
        0 <= x,
        0 < d,
    ensures
        x == (x / d) * d + x % d,
        0 <= x % d < d,
        0 <= x / d <= x,
{
    lemma_fundamental_div_mod(x, d);
    lemma_mod_bound(x, d);
    assert(d * (x / d) == (x / d) * d) by (nonlinear_arith);
    assert(0 <= x / d <= x) by (nonlinear_arith)
        requires
            0 <= x,
            0 < d,
    ;
}

/// An exact quotient multiplies back.
pub proof fn lemma_exact_div(x: int, d: int)
    requires
        0 <= x,
        0 < d,
        x % d == 0,
    ensures
        (x / d) * d == x,
        0 <= x / d <= x,
{
    lemma_div_mod_split(x, d);
}

/// Products are monotone in both factors.
pub proof fn lemma_mul_mono(a: int, b: int, c: int, d: int)
    by (nonlinear_arith)
    requires
        0 <= a <= c,
        0 <= b <= d,
    ensures
        0 <= a * b <= c * d,
{
}

/// Group `i` of `n` groups of `stride` ends within the whole.
pub proof fn lemma_group_bound(i: int, n: int, stride: int)
    by (nonlinear_arith)
    requires
        0 <= i < n,
        0 <= stride,
    ensures
        0 <= i * stride,
        i * stride + stride == (i + 1) * stride,
        (i + 1) * stride <= n * stride,
{
}

/// `x < n * d` puts the quotient below `n`.
pub proof fn lemma_div_lt(x: int, n: int, d: int)
    requires
        0 <= x < n * d,
        0 < d,
    ensures
        0 <= x / d < n,
{
    lemma_div_mod_split(x, d);
    let q = x / d;
    assert(q < n) by (nonlinear_arith)
        requires
            q * d <= x,
            x < n * d,
            0 < d,
    ;
}

/// The sum of the numbers in `s`.
pub open spec fn sum(s: Seq<nat>) -> nat
    decreases s.len(),
{
    if s.len() == 0 {
        0
    } else {
        sum(s.drop_last()) + s.last()
    }
}

/// A prefix sums to no more than the whole.
pub proof fn lemma_sum_prefix(s: Seq<nat>, k: int)
    requires
        0 <= k <= s.len(),
    ensures
        sum(s.take(k)) <= sum(s),
    decreases s.len() - k,
{
    if k == s.len() {
        assert(s.take(k) =~= s);
    } else {
        lemma_sum_prefix(s, k + 1);
        lemma_sum_step(s, k);
    }
}

/// One more element adds itself to the sum of a prefix.
pub proof fn lemma_sum_step(s: Seq<nat>, k: int)
    requires
        0 <= k < s.len(),
    ensures
        sum(s.take(k + 1)) == sum(s.take(k)) + s[k],
{
    assert(s.take(k + 1).drop_last() =~= s.take(k));
}

/// The sum of a concatenation.
pub proof fn lemma_sum_concat(a: Seq<nat>, b: Seq<nat>)
    ensures
        sum(a + b) == sum(a) + sum(b),
    decreases b.len(),
{
    if b.len() == 0 {
        assert(a + b =~= a);
    } else {
        assert((a + b).drop_last() =~= a + b.drop_last());
        lemma_sum_concat(a, b.drop_last());
    }
}

} // verus!
