//! The CRC-32 of a run of zero bytes, computed by doubling rather than by hashing
//! the run.
use vstd::arithmetic::div_mod::{lemma_basic_div, lemma_div_denominator, lemma_mod_breakdown, lemma_small_mod};
use vstd::prelude::*;

use crate::crc::{crc32, crc32_combine, crc32_of};
use crate::gf2::{lemma_zero_bits_add, lemma_zero_bits_linear, zero_bits};
use crate::trim::combined;

verus! {

/// The CRC-32 of `n` zero bytes, given the CRC-32 `one` of a single zero byte:
/// each further zero byte pads the register by eight zero bits and adds `one`.
pub open spec fn zero_run(one: u32, n: nat) -> u32
    decreases n,
{
    if n == 0 {
        0u32
    } else {
        combined(zero_run(one, (n - 1) as nat), one, 1)
    }
}

/// Combining the CRC of `a` zero bytes with that of `b` zero bytes gives the CRC of
/// `a + b` zero bytes.
pub proof fn lemma_zero_run_combined(one: u32, a: nat, b: nat)
    ensures
        combined(zero_run(one, a), zero_run(one, b), b) == zero_run(one, a + b),
    decreases b,
{
    if b > 0 {
        let za = zero_run(one, a);
        let zb1 = zero_run(one, (b - 1) as nat);
        lemma_zero_run_combined(one, a, (b - 1) as nat);
        assert(zero_run(one, a + b) == zero_bits(combined(za, zb1, (b - 1) as nat), 8) ^ one) by {
            assert((a + b - 1) as nat == a + (b - 1) as nat);
        }
        assert(zero_run(one, b) == zero_bits(zb1, 8) ^ one);
        if b == 1 {
            assert(zb1 == 0u32);
            lemma_zero_bits_linear(0u32, 0u32, 8);
            assert(0u32 ^ 0u32 == 0u32 && zero_bits(0u32, 8) ^ zero_bits(0u32, 8) == 0u32)
                by (bit_vector);
            let zz = zero_bits(za, 8);
            assert(zz ^ (0u32 ^ one) == zz ^ one) by (bit_vector);
        } else {
            let zp = zero_bits(za, 8 * (b - 1) as nat);
            lemma_zero_bits_linear(zp, zb1, 8);
            lemma_zero_bits_add(za, 8 * (b - 1) as nat, 8);
            assert(8 * (b - 1) as nat + 8 == 8 * b);
            let x = zero_bits(zp, 8);
            let y = zero_bits(zb1, 8);
            assert((x ^ y) ^ one == x ^ (y ^ one)) by (bit_vector);
        }
    }
}

/// The CRC-32 of `len` zero bytes, from the CRC-32 of one zero byte and
/// `O(log len)` combinations.
pub fn zero_run_crc(len: u32) -> (r: u32)
    ensures
        r == zero_run(crc32_of(seq![0u8]), len as nat),
{
    let zero_byte: [u8; 1] = [0u8];
    proof {
        assert(zero_byte@ =~= seq![0u8]);
    }
    zero_run_crc_from(crc32(zero_byte.as_slice()), len)
}

/// The CRC-32 of `len` zero bytes, given the CRC-32 `one` of a single zero byte:
/// the CRC of a block of `2^j` zero bytes is doubled `j` times by combining it with
/// itself, and the blocks for the set bits of `len` are combined.
pub fn zero_run_crc_from(one: u32, len: u32) -> (r: u32)
    ensures
        r == zero_run(one, len as nat),
{
    proof {
        reveal_with_fuel(zero_run, 2);
        assert(zero_run(one, 1) == one) by {
            assert(combined(0u32, one, 1) == zero_bits(0u32, 8) ^ one);
            lemma_zero_bits_linear(0u32, 0u32, 8);
            assert(0u32 ^ 0u32 == 0u32) by (bit_vector);
            let z = zero_bits(0u32, 8);
            assert(z ^ z == 0u32 && 0u32 ^ one == one) by (bit_vector);
        }
    }
    let ghost one_s = one;
    // `block` is the CRC of `block_len` zero bytes, a power of two; `acc` that of
    // the low bits of `len` consumed so far.
    let mut block = one;
    let mut block_len: u64 = 1;
    let mut acc: u32 = 0;
    let mut rest = len;
    while rest != 0
        invariant
            block_len > 0,
            block_len == 1 || block_len <= 2 * (len as nat),
            len as nat <= 0xffff_ffff,
            one_s == one,
            block == zero_run(one, block_len as nat),
            acc == zero_run(one, len as nat % block_len as nat),
            rest == len as nat / block_len as nat,
        decreases rest,
    {
        let ghost p = block_len as nat;
        let ghost m = len as nat % p;
        proof {
            lemma_mod_breakdown(len as int, p as int, 2);
            lemma_div_denominator(len as int, p as int, 2);
            assert(rest & 1 == rest % 2) by (bit_vector);
            assert(rest >> 1 == rest / 2) by (bit_vector);
            if len < p {
                lemma_basic_div(len as int, p as int);
            }
        }
        if rest & 1 != 0 {
            proof {
                lemma_zero_run_combined(one, m, p);
                assert(p * 1 + m == m + p);
            }
            acc = crc32_combine(acc, block, block_len);
        } else {
            assert(p * 0 + m == m);
        }
        rest >>= 1;
        proof {
            lemma_zero_run_combined(one, p, p);
        }
        block = crc32_combine(block, block, block_len);
        block_len = block_len * 2;
    }
    proof {
        let p = block_len as nat;
        if len as nat >= p {
            vstd::arithmetic::div_mod::lemma_div_is_ordered(p as int, len as int, p as int);
            vstd::arithmetic::div_mod::lemma_div_by_self(p as int);
        }
        lemma_small_mod(len as nat, p);
    }
    acc
}

} // verus!
