//! Encoding a 4x4 binary block as a 16-bit code, and the proof that the
//! encoding is a bijection between the 16 cells and the codes `0..65536`.
//!
//! Cells are taken in column-major order: bit `i` (least significant first)
//! covers the cell at column offset `i / 4` and row offset `i % 4`.

use vstd::prelude::*;
use vstd::arithmetic::power2::{
    lemma2_to64, lemma_pow2_adds, lemma_pow2_strictly_increases, lemma_pow2_unfold, pow2,
};
use vstd::arithmetic::div_mod::{
    lemma_breakdown, lemma_div_multiples_vanish_fancy, lemma_fundamental_div_mod_converse,
    lemma_hoist_over_denominator, lemma_mod_division_less_than_divisor, lemma_mod_multiples_basic,
    lemma_mod_multiples_vanish, lemma_small_mod,
};
use vstd::bits::lemma_u32_shl_is_mul;
use crate::access::BinaryPixelAccess;

verus! {

/// The number of distinct 4x4 binary block codes.
pub const CODE_SPACE: u32 = 65536;

/// The 16 cells of the block at `(x, y)`, in the fixed column-major bit
/// order of the encoding.
pub open spec fn block_bits<T: BinaryPixelAccess>(img: T, x: int, y: int) -> Seq<bool> {
    Seq::new(16, |i: int| img.spec_on(x + i / 4, y + i % 4))
}

/// The integer encoded by the first `n` bits: bit `i` adds `2^i` when set.
pub open spec fn code_of_bits_prefix(bits: Seq<bool>, n: int) -> int
    decreases n,
{
    if n <= 0 {
        0
    } else {
        code_of_bits_prefix(bits, n - 1) + if bits[n - 1] {
            pow2((n - 1) as nat) as int
        } else {
            0
        }
    }
}

/// The integer encoded by 16 bits, least significant first.
pub open spec fn code_of_bits(bits: Seq<bool>) -> int {
    code_of_bits_prefix(bits, 16)
}

/// The code of the 4x4 block whose top-left corner is `(x, y)`.
pub open spec fn block_code<T: BinaryPixelAccess>(img: T, x: int, y: int) -> int {
    code_of_bits(block_bits(img, x, y))
}

/// Bit `i` of a code, read back by division.
pub open spec fn bit_of_code(code: int, i: int) -> bool {
    (code / pow2(i as nat) as int) % 2 == 1
}

/// The 16 bits of a code, least significant first.
pub open spec fn bits_of_code(code: int) -> Seq<bool> {
    Seq::new(16, |i: int| bit_of_code(code, i))
}

/// An `n`-bit prefix encodes a value below `2^n`.
pub proof fn lemma_code_prefix_bounds(bits: Seq<bool>, n: int)
    requires
        0 <= n,
    ensures
        0 <= code_of_bits_prefix(bits, n) < pow2(n as nat),
    decreases n,
{
    if n == 0 {
        lemma2_to64();
    } else {
        lemma_code_prefix_bounds(bits, n - 1);
        lemma_pow2_unfold(n as nat);
    }
}

/// Bit `i` of an encoded prefix of length `n > i` is the bit that was
/// encoded.
proof fn lemma_bit_extract(bits: Seq<bool>, i: int, n: int)
    requires
        0 <= i < n,
    ensures
        bit_of_code(code_of_bits_prefix(bits, n), i) == bits[i],
    decreases n,
{
    let p = pow2(i as nat) as int;
    lemma2_to64();
    assert(p > 0) by {
        vstd::arithmetic::power2::lemma_pow2_pos(i as nat);
    }
    let lo = code_of_bits_prefix(bits, i);
    let b: int = if bits[i] {
        1
    } else {
        0
    };
    if n == i + 1 {
        lemma_code_prefix_bounds(bits, i);
        assert(code_of_bits_prefix(bits, n) == p * b + lo) by {
            vstd::arithmetic::mul::lemma_mul_is_commutative(p, b);
        }
        lemma_div_multiples_vanish_fancy(b, lo, p);
        assert((p * b + lo) / p == b);
        lemma_small_mod(b as nat, 2);
    } else {
        let c = code_of_bits_prefix(bits, n - 1);
        lemma_bit_extract(bits, i, n - 1);
        let hb: int = if bits[n - 1] {
            1
        } else {
            0
        };
        let q = pow2((n - 1 - i) as nat) as int;
        assert(pow2((n - 1) as nat) == p * q) by {
            lemma_pow2_adds(i as nat, (n - 1 - i) as nat);
        }
        assert(code_of_bits_prefix(bits, n) == c + hb * (p * q));
        assert(hb * (p * q) == (hb * q) * p) by {
            vstd::arithmetic::mul::lemma_mul_is_commutative(p, q);
            vstd::arithmetic::mul::lemma_mul_is_associative(hb, q, p);
        }
        assert(code_of_bits_prefix(bits, n) == c + (hb * q) * p);
        assert((c + (hb * q) * p) / p == c / p + hb * q) by {
            lemma_hoist_over_denominator(c, hb * q, p as nat);
        }
        assert(q == 2 * pow2((n - 2 - i) as nat)) by {
            lemma_pow2_unfold((n - 1 - i) as nat);
        }
        assert((c / p + hb * q) % 2 == (c / p) % 2) by {
            assert(hb * q == 2 * (hb * pow2((n - 2 - i) as nat) as int)) by {
                vstd::arithmetic::mul::lemma_mul_is_associative(
                    hb,
                    2,
                    pow2((n - 2 - i) as nat) as int,
                );
                vstd::arithmetic::mul::lemma_mul_is_commutative(hb, 2);
            }
            lemma_mod_multiples_vanish(hb * pow2((n - 2 - i) as nat) as int, c / p, 2);
            vstd::arithmetic::mul::lemma_mul_is_commutative(
                2,
                hb * pow2((n - 2 - i) as nat) as int,
            );
        }
    }
}

/// Encoding 16 cells gives a code below 65536, and reading the code's bits
/// back recovers exactly the cells that were encoded.
pub proof fn lemma_bits_round_trip(bits: Seq<bool>)
    requires
        bits.len() == 16,
    ensures
        0 <= code_of_bits(bits) < CODE_SPACE,
        bits_of_code(code_of_bits(bits)) == bits,
{
    lemma_code_prefix_bounds(bits, 16);
    lemma2_to64();
    assert forall|i: int| 0 <= i < 16 implies bits_of_code(code_of_bits(bits))[i] == bits[i] by {
        lemma_bit_extract(bits, i, 16);
    }
    assert(bits_of_code(code_of_bits(bits)) =~= bits);
}

/// An `n`-bit reconstruction of a code's bits encodes `code % 2^n`.
proof fn lemma_code_reconstruct(code: int, n: int)
    requires
        0 <= code,
        0 <= n <= 16,
    ensures
        code_of_bits_prefix(bits_of_code(code), n) == code % pow2(n as nat) as int,
    decreases n,
{
    lemma2_to64();
    if n == 0 {
        lemma_mod_multiples_basic(code, 1);
    } else {
        lemma_code_reconstruct(code, n - 1);
        let p = pow2((n - 1) as nat) as int;
        assert(p > 0) by {
            vstd::arithmetic::power2::lemma_pow2_pos((n - 1) as nat);
        }
        let m: int = (code / p) % 2;
        lemma_mod_division_less_than_divisor(code / p, 2);
        assert(0 <= m < 2);
        assert(bits_of_code(code)[n - 1] == bit_of_code(code, n - 1));
        let addend: int = if bits_of_code(code)[n - 1] {
            p
        } else {
            0
        };
        assert(code_of_bits_prefix(bits_of_code(code), n) == code_of_bits_prefix(
            bits_of_code(code),
            n - 1,
        ) + addend);
        assert(addend == p * m) by {
            if bit_of_code(code, n - 1) {
                assert(m == 1);
            } else {
                assert(m == 0);
            }
        }
        assert(code % (p * 2) == p * ((code / p) % 2) + code % p) by {
            lemma_breakdown(code, p, 2);
        }
        assert(p * 2 == pow2(n as nat)) by {
            lemma_pow2_adds((n - 1) as nat, 1);
        }
    }
}

/// Reading a code's 16 bits and encoding them again gives the code back:
/// with the previous lemma, the encoding is a bijection between 16-cell
/// patterns and the codes `0..65536`.
pub proof fn lemma_code_round_trip(code: int)
    requires
        0 <= code < CODE_SPACE,
    ensures
        code_of_bits(bits_of_code(code)) == code,
{
    lemma_code_reconstruct(code, 16);
    lemma2_to64();
    lemma_small_mod(code as nat, pow2(16));
}

/// Reads the 4x4 block whose top-left corner is `(x, y)` into its code.
pub fn readblock<T: BinaryPixelAccess>(img: &T, x: u32, y: u32) -> (code: u32)
    requires
        img.inv(),
        img.spec_width() <= u32::MAX,
        img.spec_height() <= u32::MAX,
        x as int + 4 <= img.spec_width(),
        y as int + 4 <= img.spec_height(),
    ensures
        code == block_code(*img, x as int, y as int),
        code < CODE_SPACE,
{
    let ghost bits = block_bits(*img, x as int, y as int);
    let mut code: u32 = 0;
    let mut bit: u32 = 1;
    proof {
        assert(1u32 << 0u32 == 1u32) by (bit_vector);
    }
    let mut xx = x;
    while xx < x + 4
        invariant
            img.inv(),
            img.spec_width() <= u32::MAX,
            img.spec_height() <= u32::MAX,
            x as int + 4 <= img.spec_width(),
            y as int + 4 <= img.spec_height(),
            x <= xx <= x + 4,
            bits == block_bits(*img, x as int, y as int),
            bit == 1u32 << ((4 * (xx - x)) as u32),
            code == code_of_bits_prefix(bits, 4 * (xx - x)),
        decreases x + 4 - xx,
    {
        let mut yy = y;
        while yy < y + 4
            invariant
                img.inv(),
                img.spec_width() <= u32::MAX,
                img.spec_height() <= u32::MAX,
                x as int + 4 <= img.spec_width(),
                y as int + 4 <= img.spec_height(),
                x <= xx < x + 4,
                y <= yy <= y + 4,
                bits == block_bits(*img, x as int, y as int),
                bit == 1u32 << ((4 * (xx - x) + (yy - y)) as u32),
                code == code_of_bits_prefix(bits, 4 * (xx - x) + (yy - y)),
            decreases y + 4 - yy,
        {
            let ghost i: int = 4 * (xx - x) + (yy - y);
            let ghost k: u32 = i as u32;
            proof {
                assert(0 <= i < 16);
                lemma_fundamental_div_mod_converse(i, 4, xx - x, yy - y);
                assert(bits[i] == img.spec_on(xx as int, yy as int));
                assert(1 * pow2(k as nat) <= u32::MAX) by {
                    lemma_pow2_strictly_increases(k as nat, 32);
                    lemma2_to64();
                }
                lemma_u32_shl_is_mul(1u32, k);
                assert(bit == pow2(i as nat));
                lemma_code_prefix_bounds(bits, i);
                assert(code < bit);
            }
            if img.get_pixel(xx, yy) {
                proof {
                    assert(code | bit == code + bit) by (bit_vector)
                        requires
                            bit == 1u32 << k,
                            code < 1u32 << k,
                            k < 16,
                    ;
                    assert(code + bit == code_of_bits_prefix(bits, i + 1));
                }
                code = code | bit;
            }
            proof {
                assert((1u32 << k) << 1u32 == 1u32 << ((k + 1) as u32)) by (bit_vector)
                    requires
                        k < 16,
                ;
            }
            bit = bit << 1;
            yy = yy + 1;
        }
        xx = xx + 1;
    }
    proof {
        lemma_code_prefix_bounds(bits, 16);
        lemma2_to64();
    }
    code
}

} // verus!
