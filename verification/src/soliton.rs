//! The degree distribution: a robust soliton distribution held in 32-bit
//! fixed point.
//!
//! A weight is an integer in units of 2^-32; the distribution is kept
//! unnormalized together with its exact total, so the probability of degree
//! `d` is the rational `weight(d) / total`.  Normalization is therefore
//! exact: the probabilities sum to 1 as rationals, with no floating-point
//! tolerance.  The two transcendental inputs — the spike size
//! `S = c * sqrt(K) * ln(K/delta)` and the spike factor `ln(S/delta)` — are
//! taken as fixed-point values computed by the caller; everything from
//! there on is integer arithmetic with the exact boundary conditions of
//! the robust soliton construction.

use vstd::prelude::*;

verus! {

/// The fixed-point scale: weights are integers in units of `1 / SCALE`.
pub const SCALE: u64 = 0x1_0000_0000;

/// The scale of the sampling draw: a `u64` draw `x` stands for the real
/// number `x / DRAW_SCALE` in `[0, 1)`.
pub const DRAW_SCALE: u128 = 0x1_0000_0000_0000_0000;

/// The ideal soliton component for degree `d`, scaled by `SCALE`:
/// `1/k` at `d == 1`, `1/(d*(d-1))` for `1 < d <= k`, else 0.
pub open spec fn soliton_part(k: int, d: int) -> int {
    if d == 1 {
        SCALE as int / k
    } else if d <= k {
        SCALE as int / (d * (d - 1))
    } else {
        0
    }
}

/// The fixed-point floor of `k / s_real`, where `s` is `s_real` scaled by
/// `SCALE`.  This is the degree that receives the spike mass.
pub open spec fn spike_degree(k: int, s: int) -> int {
    (k * SCALE as int) / s
}

/// The robust (tail) component for degree `d`, scaled by `SCALE`, where
/// `s` is the spike size `S` and `t` the spike factor `ln(S/delta)`, both
/// scaled by `SCALE`: `S/(d*k)` for `d <= spike_degree - 1`, the spike
/// `S*ln(S/delta)/k` at `d == spike_degree`, else 0.
pub open spec fn tail_part(k: int, s: int, t: int, d: int) -> int {
    let r = spike_degree(k, s);
    if d <= r - 1 {
        s / (d * k)
    } else if d == r {
        (s * t) / (k * SCALE as int)
    } else {
        0
    }
}

/// The unnormalized fixed-point weight of degree `d`.
pub open spec fn weight(k: int, s: int, t: int, d: int) -> int {
    soliton_part(k, d) + tail_part(k, s, t, d)
}

/// The sum of the weights of degrees `1..=l`.
pub open spec fn weight_sum(l: int, k: int, s: int, t: int) -> int
    decreases l,
{
    if l <= 0 {
        0
    } else {
        weight_sum(l - 1, k, s, t) + weight(k, s, t, l)
    }
}

/// The sum of a sequence of stored weights.
pub open spec fn seq_sum(s: Seq<u64>) -> int
    decreases s.len(),
{
    if s.len() == 0 {
        0
    } else {
        seq_sum(s.drop_last()) + s.last()
    }
}

/// Every fixed-point weight is non-negative: each component is a euclidean
/// division of a non-negative numerator by a positive divisor.
pub proof fn lemma_weight_nonneg(k: int, s: int, t: int, d: int)
    requires
        1 <= k,
        1 <= s,
        0 <= t,
        1 <= d,
    ensures
        0 <= weight(k, s, t, d),
{
    assert(0 <= soliton_part(k, d)) by {
        if d == 1 {
            lemma_div_nonneg(SCALE as int, k);
        } else if d <= k {
            assert(d * (d - 1) >= 2) by (nonlinear_arith)
                requires 2 <= d;
            lemma_div_nonneg(SCALE as int, d * (d - 1));
        }
    }
    assert(0 <= tail_part(k, s, t, d)) by {
        let r = spike_degree(k, s);
        if d <= r - 1 {
            assert(d * k >= 1) by (nonlinear_arith)
                requires 1 <= d && 1 <= k;
            lemma_div_nonneg(s, d * k);
        } else if d == r {
            assert(s * t >= 0) by (nonlinear_arith)
                requires 1 <= s && 0 <= t;
            assert(k * (SCALE as int) >= 1) by (nonlinear_arith)
                requires 1 <= k;
            lemma_div_nonneg(s * t, k * SCALE as int);
        }
    }
}

/// Euclidean division of a non-negative value by a positive one is
/// non-negative.
pub proof fn lemma_div_nonneg(a: int, b: int)
    requires
        0 <= a,
        1 <= b,
    ensures
        0 <= a / b,
{
    assert(0 <= a / b) by (nonlinear_arith)
        requires 0 <= a && 1 <= b;
}

/// The weight sum over any prefix of degrees is non-negative.
pub proof fn lemma_weight_sum_nonneg(l: int, k: int, s: int, t: int)
    requires
        1 <= k,
        1 <= s,
        0 <= t,
    ensures
        0 <= weight_sum(l, k, s, t),
    decreases l,
{
    if l > 0 {
        lemma_weight_sum_nonneg(l - 1, k, s, t);
        lemma_weight_nonneg(k, s, t, l);
    }
}

/// Each single weight is bounded by the sum of all weights.
pub proof fn lemma_weight_le_sum(l: int, k: int, s: int, t: int, d: int)
    requires
        1 <= k,
        1 <= s,
        0 <= t,
        1 <= d <= l,
    ensures
        weight(k, s, t, d) <= weight_sum(l, k, s, t),
    decreases l,
{
    if d == l {
        lemma_weight_sum_nonneg(l - 1, k, s, t);
    } else {
        lemma_weight_le_sum(l - 1, k, s, t, d);
        lemma_weight_nonneg(k, s, t, l);
    }
}

/// The cumulative weight of the degrees `1..=n`: the sum of the first `n`
/// stored weights.
pub open spec fn cum_weight(w: Seq<u64>, n: int) -> int {
    seq_sum(w.take(n))
}

/// The draw `x` (standing for the real number `x / DRAW_SCALE`) reaches
/// degree `d`: the cumulative probability of the degrees up to `d` is at
/// least `x / DRAW_SCALE`.  Cross-multiplied so the comparison is exact
/// integer arithmetic: `x / DRAW_SCALE <= cum / total`.
pub open spec fn reaches(w: Seq<u64>, total: int, x: int, d: int) -> bool {
    x * total <= cum_weight(w, d) * DRAW_SCALE as int
}

/// Degree `d` is what the draw `x` selects from the distribution: the
/// smallest degree the draw reaches, or the maximum degree as the
/// explicit fallback when no cumulative sum reaches the draw.
pub open spec fn degree_sampled(w: Seq<u64>, total: int, x: int, d: int) -> bool {
    &&& 1 <= d <= w.len()
    &&& (reaches(w, total, x, d) || d == w.len())
    &&& forall|j: int| 1 <= j < d ==> !reaches(w, total, x, j)
}

/// Extending a prefix by one element adds that element to its sum.
pub proof fn lemma_seq_sum_take_succ(s: Seq<u64>, n: int)
    requires
        0 <= n < s.len(),
    ensures
        seq_sum(s.take(n + 1)) == seq_sum(s.take(n)) + s[n],
{
    assert(s.take(n + 1).drop_last() =~= s.take(n));
    assert(s.take(n + 1).last() == s[n]);
}

/// A prefix sum never exceeds the sum of the whole sequence.
pub proof fn lemma_prefix_le_sum(s: Seq<u64>, n: int)
    requires
        0 <= n <= s.len(),
    ensures
        seq_sum(s.take(n)) <= seq_sum(s),
    decreases s.len() - n,
{
    if n == s.len() {
        assert(s.take(n) =~= s);
    } else {
        lemma_seq_sum_take_succ(s, n);
        lemma_prefix_le_sum(s, n + 1);
    }
}

/// At most one degree satisfies `degree_sampled` for a given draw: the
/// sampled degree is a function of the distribution and the draw.
pub proof fn lemma_degree_sampled_unique(w: Seq<u64>, total: int, x: int, d1: int, d2: int)
    requires
        degree_sampled(w, total, x, d1),
        degree_sampled(w, total, x, d2),
    ensures
        d1 == d2,
{
    if d1 < d2 {
        assert(!reaches(w, total, x, d1));
        assert(d1 == w.len());
    } else if d2 < d1 {
        assert(!reaches(w, total, x, d2));
        assert(d2 == w.len());
    }
}

/// Appending one element adds its value to the sequence sum.
pub proof fn lemma_seq_sum_push(s: Seq<u64>, x: u64)
    ensures
        seq_sum(s.push(x)) == seq_sum(s) + x,
{
    assert(s.push(x).drop_last() =~= s);
    assert(s.push(x).last() == x);
}

} // verus!
