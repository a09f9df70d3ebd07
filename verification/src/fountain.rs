//! The encoder: owns the source buffer and its degree distribution.

use vstd::prelude::*;

use crate::packet::Block;
use crate::packet::FountainError;
use crate::packet::Packet;
use crate::soliton::DRAW_SCALE;
use crate::soliton::SCALE;
use crate::soliton::cum_weight;
use crate::soliton::degree_sampled;
use crate::soliton::lemma_degree_sampled_unique;
use crate::soliton::lemma_prefix_le_sum;
use crate::soliton::lemma_seq_sum_push;
use crate::soliton::lemma_seq_sum_take_succ;
use crate::soliton::lemma_weight_le_sum;
use crate::soliton::lemma_weight_nonneg;
use crate::soliton::reaches;
use crate::soliton::seq_sum;
use crate::soliton::weight;
use crate::soliton::weight_sum;
use crate::xorshift::XorShift;
use crate::xorshift::xs_out;

verus! {

/// A bound that every single fixed-point weight stays under (2^65): the
/// soliton component is at most `SCALE`, the tail component at most the
/// spike size, and the spike at most the spike factor.
pub const WEIGHT_BOUND: u128 = 0x2_0000_0000_0000_0000;

/// The fountain encoder: an immutable source buffer together with the
/// fixed-point robust soliton weights over degrees `1..=len` and their
/// exact total.
pub struct Fountain {
    data: Vec<u8>,
    weights: Vec<u64>,
    total: u64,
}

/// The source buffer must be non-empty and its length must fit in 32 bits.
pub open spec fn valid_source(data: Seq<u8>) -> bool {
    1 <= data.len() < 0x1_0000_0000
}

/// The chunk parameter must lie in `(0, len]` and the scaled spike size
/// must be positive.
pub open spec fn valid_tuning(len: int, k: int, s: int) -> bool {
    1 <= k <= len && 1 <= s
}

impl Fountain {
    /// The source buffer.
    pub closed spec fn spec_data(&self) -> Seq<u8> {
        self.data@
    }

    /// The stored fixed-point weights, index `i` holding degree `i + 1`.
    pub closed spec fn spec_weights(&self) -> Seq<u64> {
        self.weights@
    }

    /// The exact normalization total: the probability of degree `d` is
    /// `spec_weights()[d - 1] / spec_total()`.
    pub closed spec fn spec_total(&self) -> int {
        self.total as int
    }

    /// Well-formedness: the weights cover exactly the degrees `1..=len`
    /// and their sum is the (positive) stored total, so the normalized
    /// distribution sums to exactly 1.
    pub open spec fn wf(&self) -> bool {
        &&& valid_source(self.spec_data())
        &&& self.spec_weights().len() == self.spec_data().len()
        &&& seq_sum(self.spec_weights()) == self.spec_total()
        &&& 1 <= self.spec_total() <= u64::MAX
    }

    /// Build an encoder over `data`.
    ///
    /// `k` is the chunk parameter of the robust soliton distribution;
    /// `s` and `t` are the spike size `S = c * sqrt(k) * ln(k/delta)` and
    /// the spike factor `ln(S/delta)`, both in 32-bit fixed point (the
    /// real value times `SCALE`).  The weights are computed exactly as
    /// `weight` states, summed, and kept unnormalized beside their total.
    pub fn new(data: Vec<u8>, k: u32, s: u64, t: u64) -> (res: Result<Fountain, FountainError>)
        ensures
            res is Ok <==> {
                &&& valid_source(data@)
                &&& valid_tuning(data@.len() as int, k as int, s as int)
                &&& 1 <= weight_sum(data@.len() as int, k as int, s as int, t as int) <= u64::MAX
            },
            res matches Err(e) ==> (e == FountainError::InvalidInput <==> !valid_source(data@)),
            res matches Ok(f) ==> {
                &&& f.wf()
                &&& f.spec_data() == data@
                &&& f.spec_total() == weight_sum(data@.len() as int, k as int, s as int, t as int)
                &&& forall|i: int| 0 <= i < data@.len()
                    ==> f.spec_weights()[i] == weight(k as int, s as int, t as int, i + 1)
            },
    {
        if data.len() == 0 || data.len() as u64 >= 0x1_0000_0000u64 {
            return Err(FountainError::InvalidInput);
        }
        let l: u64 = data.len() as u64;
        if k == 0 || k as u64 > l {
            return Err(FountainError::InvalidConfiguration);
        }
        if s == 0 {
            return Err(FountainError::InvalidConfiguration);
        }

        let mut total: u128 = 0;
        let mut d: u64 = 1;
        while d <= l
            invariant
                1 <= d <= l + 1,
                1 <= l < 0x1_0000_0000,
                1 <= k as u64 <= l,
                1 <= s,
                total == weight_sum(d - 1, k as int, s as int, t as int),
                total as int <= (d - 1) * (WEIGHT_BOUND as int),
            decreases l - d + 1,
        {
            let w = weight_fp(k as u64, s, t, d);
            assert(total as int + w as int <= 0x1_0000_0000 * (WEIGHT_BOUND as int)) by (nonlinear_arith)
                requires
                    total as int <= (d - 1) * (WEIGHT_BOUND as int),
                    w < WEIGHT_BOUND,
                    d <= 0x1_0000_0000u64,
            ;
            total = total + w;
            d = d + 1;
        }

        if total == 0 || total > u64::MAX as u128 {
            return Err(FountainError::InvalidConfiguration);
        }
        let total64: u64 = total as u64;

        let mut weights: Vec<u64> = Vec::new();
        d = 1;
        while d <= l
            invariant
                1 <= d <= l + 1,
                1 <= l < 0x1_0000_0000,
                1 <= k as u64 <= l,
                1 <= s,
                weights@.len() == d - 1,
                seq_sum(weights@) == weight_sum(d - 1, k as int, s as int, t as int),
                forall|i: int| 0 <= i < d - 1
                    ==> weights@[i] == weight(k as int, s as int, t as int, i + 1),
                1 <= total64,
                total64 as int == weight_sum(l as int, k as int, s as int, t as int),
            decreases l - d + 1,
        {
            let w = weight_fp(k as u64, s, t, d);
            proof {
                lemma_weight_nonneg(k as int, s as int, t as int, d as int);
                lemma_weight_le_sum(l as int, k as int, s as int, t as int, d as int);
                lemma_seq_sum_push(weights@, w as u64);
            }
            weights.push(w as u64);
            d = d + 1;
        }

        Ok(Fountain { data, weights, total: total64 })
    }

    /// The length of the source buffer.
    pub fn len(&self) -> (n: usize)
        ensures
            n == self.spec_data().len(),
    {
        self.data.len()
    }

    /// The stored fixed-point weight of degree `i + 1`.
    pub fn weight_at(&self, i: usize) -> (w: u64)
        requires
            i < self.spec_weights().len(),
        ensures
            w == self.spec_weights()[i as int],
    {
        self.weights[i]
    }

    /// The exact normalization total of the distribution.
    pub fn total_weight(&self) -> (t: u64)
        ensures
            t as int == self.spec_total(),
    {
        self.total
    }

    /// Walk the cumulative distribution and return the degree that the
    /// draw `x` selects: the smallest degree whose cumulative sum reaches
    /// the draw, with an explicit fallback to the maximum degree should
    /// the walk run off the end of the distribution.
    pub fn sample_degree(&self, x: u64) -> (d: u32)
        requires
            self.wf(),
        ensures
            degree_sampled(self.spec_weights(), self.spec_total(), x as int, d as int),
    {
        let l: usize = self.weights.len();
        let mut cum: u64 = 0;
        let mut i: usize = 0;
        while i < l
            invariant
                self.wf(),
                l == self.spec_weights().len(),
                0 <= i <= l,
                cum == cum_weight(self.spec_weights(), i as int),
                forall|j: int| 1 <= j <= i
                    ==> !reaches(self.spec_weights(), self.spec_total(), x as int, j),
            decreases l - i,
        {
            let wi = self.weights[i];
            proof {
                lemma_seq_sum_take_succ(self.spec_weights(), i as int);
                lemma_prefix_le_sum(self.spec_weights(), i + 1);
            }
            cum = cum + wi;
            assert(x as int * self.total as int <= u128::MAX as int) by (nonlinear_arith)
                requires
                    0 <= x as int <= 0xFFFF_FFFF_FFFF_FFFF,
                    0 <= self.total as int <= 0xFFFF_FFFF_FFFF_FFFF,
            ;
            assert(cum as int * DRAW_SCALE as int <= u128::MAX as int) by (nonlinear_arith)
                requires 0 <= cum as int <= 0xFFFF_FFFF_FFFF_FFFF;
            let lhs: u128 = x as u128 * self.total as u128;
            let rhs: u128 = cum as u128 * (DRAW_SCALE as u128);
            if lhs <= rhs {
                return (i as u32) + 1;
            }
            i = i + 1;
        }
        l as u32
    }

    /// Build one packet from an injected degree draw `x` and block
    /// selection seed `seed`: sample the degree, then XOR together that
    /// many pseudorandomly selected source positions and bytes.
    pub fn generate_packet_with(&self, x: u64, seed: u32) -> (p: Packet)
        requires
            self.wf(),
        ensures
            p.total_size as int == self.spec_data().len(),
            1 <= p.degree <= p.total_size,
            p.rng_seed == seed,
            degree_sampled(self.spec_weights(), self.spec_total(), x as int, p.degree as int),
            p.xor_block == spec_combine(self.spec_data(), p.degree as nat, seed),
    {
        let d = self.sample_degree(x);
        let l32: u32 = self.data.len() as u32;
        let mut rng = XorShift::from_seed(seed);
        let mut index: u32 = 0;
        let mut content: u8 = 0;
        let mut j: u32 = 0;
        while j < d
            invariant
                self.wf(),
                l32 as int == self.spec_data().len(),
                0 <= j <= d,
                rng.spec_state() == if j == 0 { seed } else { xs_out(seed, (j - 1) as nat) },
                (Block { index, content }) == spec_combine(self.spec_data(), j as nat, seed),
            decreases d - j,
        {
            let r = rng.rand();
            let idx = r % l32;
            index = index ^ idx;
            content = content ^ self.data[idx as usize];
            j = j + 1;
        }
        Packet { total_size: l32, degree: d, rng_seed: seed, xor_block: Block { index, content } }
    }

    /// Build one packet, drawing the degree draw and the seed from the
    /// external entropy source.  Whatever was drawn, the degree lies in
    /// `[1, len]` and the combined block is exactly the deterministic
    /// recombination that the packet's own seed and degree describe.
    pub fn generate_packet(&self) -> (p: Packet)
        requires
            self.wf(),
        ensures
            p.total_size as int == self.spec_data().len(),
            1 <= p.degree <= p.total_size,
            p.xor_block == spec_combine(self.spec_data(), p.degree as nat, p.rng_seed),
    {
        let x: u64 = crate::entropy::random_u64();
        let seed: u32 = crate::entropy::random_u32();
        self.generate_packet_with(x, seed)
    }
}

/// The distribution of a well-formed encoder is exactly normalized: every
/// stored weight is non-negative and the weights sum to the normalization
/// total, so the normalized weights sum to exactly 1 as rationals.
pub proof fn lemma_distribution_normalized(f: &Fountain)
    requires
        f.wf(),
    ensures
        forall|i: int| 0 <= i < f.spec_weights().len() ==> 0 <= f.spec_weights()[i],
        seq_sum(f.spec_weights()) == f.spec_total(),
        1 <= f.spec_total(),
{
}

/// Every selected block position lies in `[0, l)`: each draw is reduced
/// modulo the source length before it is used.
pub proof fn lemma_position_in_range(seed: u32, j: nat, l: int)
    requires
        1 <= l,
    ensures
        0 <= spec_position(seed, j, l) < l,
{
    let r = xs_out(seed, j) as int;
    assert(0 <= r % l < l) by (nonlinear_arith)
        requires 0 <= r && 1 <= l;
}

/// The packet emitted for a given draw and seed is unique: any two
/// packets that satisfy the generation contract for the same encoder,
/// degree draw and seed are identical, field for field.  In particular,
/// two generator runs over the same distribution with the same entropy
/// produce identical combined blocks.
pub proof fn lemma_packet_deterministic(f: &Fountain, x: u64, seed: u32, p1: Packet, p2: Packet)
    requires
        f.wf(),
        p1.total_size as int == f.spec_data().len(),
        p2.total_size as int == f.spec_data().len(),
        p1.rng_seed == seed,
        p2.rng_seed == seed,
        degree_sampled(f.spec_weights(), f.spec_total(), x as int, p1.degree as int),
        degree_sampled(f.spec_weights(), f.spec_total(), x as int, p2.degree as int),
        p1.xor_block == spec_combine(f.spec_data(), p1.degree as nat, seed),
        p2.xor_block == spec_combine(f.spec_data(), p2.degree as nat, seed),
    ensures
        p1 == p2,
{
    lemma_degree_sampled_unique(
        f.spec_weights(),
        f.spec_total(),
        x as int,
        p1.degree as int,
        p2.degree as int,
    );
}

/// The boundary case of a single-byte source: the distribution is exactly
/// the one-point distribution on degree 1, every draw samples degree 1,
/// and every combined block has index 0 and the single source byte as
/// content, whatever the seed.
pub proof fn lemma_single_byte_source(f: &Fountain, seed: u32)
    requires
        f.wf(),
        f.spec_data().len() == 1,
    ensures
        f.spec_weights().len() == 1,
        f.spec_weights()[0] == f.spec_total(),
        forall|x: int, d: int|
            degree_sampled(f.spec_weights(), f.spec_total(), x, d) ==> d == 1,
        spec_combine(f.spec_data(), 1, seed)
            == (Block { index: 0, content: f.spec_data()[0] }),
{
    let w = f.spec_weights();
    assert(w.drop_last() =~= Seq::<u64>::empty());
    assert(seq_sum(Seq::<u64>::empty()) == 0);
    assert(seq_sum(w) == seq_sum(w.drop_last()) + w.last());
    assert(w.last() == w[0]);

    let r = xs_out(seed, 0) as int;
    assert(r % 1int == 0) by (nonlinear_arith)
        requires 0 <= r;
    assert(spec_position(seed, 0, 1) == 0);
    assert(spec_combine(f.spec_data(), 0, seed) == (Block { index: 0u32, content: 0u8 }));
    let b = spec_combine(f.spec_data(), 1, seed);
    assert(b.index == 0u32 ^ 0u32);
    assert(b.content == 0u8 ^ f.spec_data()[0]);
    assert(0u32 ^ 0u32 == 0u32) by (bit_vector);
    let c = f.spec_data()[0];
    assert(0u8 ^ c == c) by (bit_vector);
    assert(b.content == c);
}

/// The position selected by the j-th draw (0-based) of a generator seeded
/// with `seed`, over a buffer of length `l`: the output reduced modulo
/// the length.
pub open spec fn spec_position(seed: u32, j: nat, l: int) -> int {
    xs_out(seed, j) as int % l
}

/// The combined block after the first `n` draws of a generator seeded
/// with `seed`: the XOR of the selected positions and of the source bytes
/// at those positions.  Repeated positions cancel, as the scheme intends.
pub open spec fn spec_combine(data: Seq<u8>, n: nat, seed: u32) -> Block
    decreases n,
{
    if n == 0 {
        Block { index: 0, content: 0 }
    } else {
        let prev = spec_combine(data, (n - 1) as nat, seed);
        let pos = spec_position(seed, (n - 1) as nat, data.len() as int);
        Block { index: prev.index ^ (pos as u32), content: prev.content ^ data[pos] }
    }
}

/// Compute the fixed-point weight of degree `d` exactly as `weight`
/// states it, in 128-bit arithmetic so no intermediate product can
/// overflow.
fn weight_fp(k: u64, s: u64, t: u64, d: u64) -> (w: u128)
    requires
        1 <= k < 0x1_0000_0000,
        1 <= s,
        1 <= d < 0x1_0000_0000,
    ensures
        w as int == weight(k as int, s as int, t as int, d as int),
        w < WEIGHT_BOUND,
{
    let ku = k as u128;
    let su = s as u128;
    let tu = t as u128;
    let du = d as u128;
    let sc = SCALE as u128;

    let sol: u128 = if d == 1 {
        sc / ku
    } else if d <= k {
        assert(du * (du - 1) >= 2) by (nonlinear_arith)
            requires 2 <= du;
        assert(du * (du - 1) <= 0x1_0000_0000u128 * 0x1_0000_0000u128) by (nonlinear_arith)
            requires 2 <= du && du < 0x1_0000_0000u128;
        sc / (du * (du - 1))
    } else {
        0
    };
    assert(sol <= sc) by {
        lemma_div_le(sc as int, ku as int);
        if 2 <= d && d <= k {
            lemma_div_le(sc as int, du as int * (du - 1));
        }
    }

    assert(ku * sc <= 0x1_0000_0000u128 * 0x1_0000_0000u128) by (nonlinear_arith)
        requires ku < 0x1_0000_0000u128 && sc == 0x1_0000_0000u128;
    let r: u128 = (ku * sc) / su;

    let tail: u128 = if r >= 1 && du <= r - 1 {
        assert(du * ku >= 1) by (nonlinear_arith)
            requires 1 <= du && 1 <= ku;
        assert(du * ku <= 0x1_0000_0000u128 * 0x1_0000_0000u128) by (nonlinear_arith)
            requires du < 0x1_0000_0000u128 && ku < 0x1_0000_0000u128;
        let q = su / (du * ku);
        proof { lemma_div_le(su as int, du as int * ku as int); }
        q
    } else if du == r {
        // The spike degree exists, so `s` is at most `k * SCALE`, and the
        // spike weight is at most the spike factor `t`.
        assert(su as int <= ku as int * sc as int) by (nonlinear_arith)
            requires 1 <= su as int && (ku as int * sc as int) / (su as int) >= 1;
        assert(su as int * tu as int <= (ku as int * sc as int) * tu as int) by (nonlinear_arith)
            requires su as int <= ku as int * sc as int && 0 <= tu as int;
        assert(su as int * tu as int <= u128::MAX as int) by (nonlinear_arith)
            requires
                0 <= su as int,
                0 <= tu as int,
                su as int <= 0xFFFF_FFFF_FFFF_FFFF,
                tu as int <= 0xFFFF_FFFF_FFFF_FFFF,
        ;
        let q = (su * tu) / (ku * sc);
        assert(q as int <= tu as int) by (nonlinear_arith)
            requires
                q as int == (su as int * tu as int) / (ku as int * sc as int),
                su as int * tu as int <= (ku as int * sc as int) * tu as int,
                1 <= ku as int * sc as int,
                0 <= tu as int,
        ;
        q
    } else {
        0
    };

    sol + tail
}

/// Euclidean division of a non-negative value by a positive one never
/// exceeds the dividend.
proof fn lemma_div_le(a: int, b: int)
    requires
        0 <= a,
        1 <= b,
    ensures
        a / b <= a,
{
    assert(a / b <= a) by (nonlinear_arith)
        requires 0 <= a && 1 <= b;
}

} // verus!
