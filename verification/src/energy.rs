//! The divergence evaluator: the L1 distance between the normalized block
//! frequency distributions of a candidate image and a reference histogram.
//!
//! The distance `sum |a_c/ta - b_c/tb|` over all codes `c` is carried
//! exactly as the rational `sum |a_c*tb - b_c*ta| / (ta*tb)`: a numerator
//! and a positive denominator, never rounded.

use vstd::prelude::*;
use vstd::arithmetic::mul::{
    lemma_mul_is_commutative, lemma_mul_is_distributive_add_other_way, lemma_mul_nonnegative,
    lemma_mul_upper_bound,
};
use crate::access::BinaryPixelAccess;
use crate::codec::CODE_SPACE;
use crate::histogram::{block_count, readhash, sum_prefix, total_blocks, TextureHash};

verus! {

/// Absolute difference.
pub open spec fn abs_diff(a: int, b: int) -> int {
    if a >= b {
        a - b
    } else {
        b - a
    }
}

/// Numerator of the L1 distance over the first `n` codes, on the common
/// denominator `ta * tb`.
pub open spec fn energy_num_prefix(a: Seq<u32>, ta: int, b: Seq<u32>, tb: int, n: int) -> int
    decreases n,
{
    if n <= 0 {
        0
    } else {
        energy_num_prefix(a, ta, b, tb, n - 1) + abs_diff(a[n - 1] * tb, b[n - 1] * ta)
    }
}

/// Numerator of the L1 distance over all codes.
pub open spec fn energy_num(a: Seq<u32>, ta: int, b: Seq<u32>, tb: int) -> int {
    energy_num_prefix(a, ta, b, tb, CODE_SPACE as int)
}

/// The counts of a fresh histogram of the image, one entry per code.
pub open spec fn spec_hist<T: BinaryPixelAccess>(img: T) -> Seq<u32> {
    Seq::new(CODE_SPACE as nat, |c: int| block_count(img, c) as u32)
}

/// An exact energy value: the nonnegative rational `num / den`.
#[derive(Clone, Copy, PartialEq, Eq, Structural, Debug)]
pub struct Energy {
    pub num: u128,
    pub den: u128,
}

/// A distribution evaluated against itself has energy exactly zero.
pub proof fn lemma_energy_self_zero(a: Seq<u32>, t: int)
    ensures
        energy_num(a, t, a, t) == 0,
{
    lemma_energy_self_zero_prefix(a, t, CODE_SPACE as int);
}

proof fn lemma_energy_self_zero_prefix(a: Seq<u32>, t: int, n: int)
    ensures
        energy_num_prefix(a, t, a, t, n) == 0,
    decreases n,
{
    if n > 0 {
        lemma_energy_self_zero_prefix(a, t, n - 1);
    }
}

/// Energy is symmetric in its two distributions.
pub proof fn lemma_energy_symmetric(a: Seq<u32>, ta: int, b: Seq<u32>, tb: int)
    ensures
        energy_num(a, ta, b, tb) == energy_num(b, tb, a, ta),
{
    lemma_energy_symmetric_prefix(a, ta, b, tb, CODE_SPACE as int);
}

proof fn lemma_energy_symmetric_prefix(a: Seq<u32>, ta: int, b: Seq<u32>, tb: int, n: int)
    ensures
        energy_num_prefix(a, ta, b, tb, n) == energy_num_prefix(b, tb, a, ta, n),
    decreases n,
{
    if n > 0 {
        lemma_energy_symmetric_prefix(a, ta, b, tb, n - 1);
    }
}

proof fn lemma_energy_prefix_nonneg(a: Seq<u32>, ta: int, b: Seq<u32>, tb: int, n: int)
    ensures
        0 <= energy_num_prefix(a, ta, b, tb, n),
    decreases n,
{
    if n > 0 {
        lemma_energy_prefix_nonneg(a, ta, b, tb, n - 1);
    }
}

proof fn lemma_energy_prefix_bound(a: Seq<u32>, ta: int, b: Seq<u32>, tb: int, n: int)
    requires
        0 <= ta,
        0 <= tb,
    ensures
        energy_num_prefix(a, ta, b, tb, n) <= sum_prefix(a, n) * tb + sum_prefix(b, n) * ta,
    decreases n,
{
    if n > 0 {
        lemma_energy_prefix_bound(a, ta, b, tb, n - 1);
        lemma_mul_nonnegative(a[n - 1] as int, tb);
        lemma_mul_nonnegative(b[n - 1] as int, ta);
        lemma_mul_is_distributive_add_other_way(tb, sum_prefix(a, n - 1), a[n - 1] as int);
        lemma_mul_is_distributive_add_other_way(ta, sum_prefix(b, n - 1), b[n - 1] as int);
    }
}

/// The energy numerator lies in `[0, 2 * ta * tb]`: the L1 distance between
/// two probability distributions is at most 2.
pub proof fn lemma_energy_num_range(a: Seq<u32>, ta: int, b: Seq<u32>, tb: int)
    requires
        sum_prefix(a, CODE_SPACE as int) == ta,
        sum_prefix(b, CODE_SPACE as int) == tb,
        0 <= ta,
        0 <= tb,
    ensures
        0 <= energy_num(a, ta, b, tb) <= 2 * (ta * tb),
{
    lemma_energy_prefix_nonneg(a, ta, b, tb, CODE_SPACE as int);
    lemma_energy_prefix_bound(a, ta, b, tb, CODE_SPACE as int);
    lemma_mul_is_commutative(ta, tb);
}

/// Evaluates the candidate image against the reference histogram: builds the
/// candidate's own histogram and returns the exact L1 divergence between the
/// two normalized distributions, as the rational `num / den` with
/// `den = total_blocks(candidate) * reference_total`.
pub fn evaluate_bitmap<T: BinaryPixelAccess>(bmp: &T, hash: &TextureHash) -> (e: Energy)
    requires
        bmp.inv(),
        bmp.spec_width() <= u32::MAX,
        bmp.spec_height() <= u32::MAX,
        hash.wf(),
        hash.spec_total() > 0,
        0 < total_blocks(*bmp) <= u32::MAX,
    ensures
        e.den == total_blocks(*bmp) * hash.spec_total(),
        e.num == energy_num(
            spec_hist(*bmp),
            total_blocks(*bmp),
            hash.counts(),
            hash.spec_total(),
        ),
        0 < e.den,
        e.num <= 2 * e.den,
{
    let hash1 = readhash(bmp);
    let ghost ca = spec_hist(*bmp);
    proof {
        assert forall|c: int| 0 <= c < CODE_SPACE implies ca[c] == hash1.counts()[c] by {
            assert(hash1.counts()[c] == block_count(*bmp, c));
        }
        assert(hash1.counts() =~= ca);
    }
    let ta = hash1.total();
    let tb = hash.total();
    let mut num: u128 = 0;
    let mut i: u32 = 0;
    while i < CODE_SPACE
        invariant
            hash1.wf(),
            hash.wf(),
            ta as int == hash1.spec_total(),
            tb as int == hash.spec_total(),
            0 <= i <= CODE_SPACE,
            num == energy_num_prefix(
                hash1.counts(),
                ta as int,
                hash.counts(),
                tb as int,
                i as int,
            ),
            num <= (i as int) * 0x1_0000_0000_0000_0000,
        decreases CODE_SPACE - i,
    {
        proof {
            lemma_mul_upper_bound(
                hash1.counts()[i as int] as int,
                u32::MAX as int,
                tb as int,
                u32::MAX as int,
            );
            lemma_mul_upper_bound(
                hash.counts()[i as int] as int,
                u32::MAX as int,
                ta as int,
                u32::MAX as int,
            );
        }
        let av = hash1.count(i) as u64 * tb as u64;
        let bv = hash.count(i) as u64 * ta as u64;
        let d = if av >= bv {
            av - bv
        } else {
            bv - av
        };
        num = num + d as u128;
        i = i + 1;
    }
    proof {
        lemma_mul_upper_bound(ta as int, u32::MAX as int, tb as int, u32::MAX as int);
    }
    let den = ta as u128 * tb as u128;
    proof {
        lemma_energy_num_range(hash1.counts(), ta as int, hash.counts(), tb as int);
        vstd::arithmetic::mul::lemma_mul_strictly_positive(ta as int, tb as int);
    }
    Energy { num, den }
}

} // verus!
