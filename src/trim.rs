//! Peeling the contribution of a trailing block off a combined CRC-32.
use vstd::arithmetic::div_mod::{lemma_div_denominator, lemma_mod_breakdown, lemma_small_mod};
use vstd::prelude::*;

use crate::gf2::{
    gf2_matrix_square, gf2_matrix_times, is_unzero_op, lemma_mat_apply_unzero,
    lemma_squared_unzero, lemma_unzero_bits_add, lemma_unzero_zero_bits, unzero_bit,
    unzero_bits, zero_bits, basis, CRC32_UNPOLY, GF2_DIM,
};

verus! {

/// The CRC-32 of `A || B`, from the CRC-32 of `A`, the CRC-32 of `B` and the length
/// of `B` in bytes. A zero length leaves the first CRC as it is.
pub open spec fn combined(crc_a: u32, crc_b: u32, len_b: nat) -> u32 {
    if len_b == 0 {
        crc_a
    } else {
        zero_bits(crc_a, 8 * len_b) ^ crc_b
    }
}

/// The CRC-32 of `A`, from the CRC-32 of `A || B`, the CRC-32 of `B` and the length
/// of `B` in bytes. A zero length leaves the total as it is.
pub open spec fn trimmed(total_crc: u32, suffix_crc: u32, suffix_len: nat) -> u32 {
    if suffix_len == 0 {
        total_crc
    } else {
        unzero_bits(total_crc ^ suffix_crc, 8 * suffix_len)
    }
}

/// The matrix that takes one zero bit back out of the register.
fn unzero_bit_matrix() -> (m: [u32; GF2_DIM])
    ensures
        is_unzero_op(m@, 1),
{
    let mut m = [0u32; GF2_DIM];
    m[0] = CRC32_UNPOLY;
    let mut row: u32 = 1 << 31;
    let mut n: usize = 1;
    while n < GF2_DIM
        invariant
            1 <= n <= GF2_DIM,
            m@.len() == 32,
            m@[0] == CRC32_UNPOLY,
            row == 1u32 << ((32 - n) as u32),
            forall|j: int| 1 <= j < n ==> #[trigger] m@[j] == 1u32 << ((32 - j) as u32),
        decreases GF2_DIM - n,
    {
        m[n] = row;
        let ghost nu = n as u32;
        assert((1u32 << ((32 - nu) as u32)) >> 1u32 == 1u32 << ((31 - nu) as u32)) by (bit_vector)
            requires
                1 <= nu < 32,
        ;
        row >>= 1;
        n += 1;
    }
    assert forall|i: int| 0 <= i < 32 implies #[trigger] m@[i] == unzero_bits(basis(i), 1) by {
        reveal_with_fuel(unzero_bits, 2);
        let iu = i as u32;
        assert(unzero_bit(1u32 << ((31 - iu) as u32)) == (if iu == 0 {
            CRC32_UNPOLY
        } else {
            1u32 << ((32 - iu) as u32)
        })) by (bit_vector)
            requires
                iu < 32,
        ;
    }
    m
}

/// Recovers the CRC-32 of a stream's leading part from the CRC-32 of the whole
/// stream, the CRC-32 of its trailing part and that part's length in bytes.
pub fn prefix_crc(total_crc: u32, suffix_crc: u32, suffix_len: u32) -> (r: u32)
    ensures
        r == trimmed(total_crc, suffix_crc, suffix_len as nat),
{
    if suffix_len == 0 {
        return total_crc;
    }
    let ghost c0 = total_crc ^ suffix_crc;
    let mut crc1 = total_crc ^ suffix_crc;

    let mut even = [0u32; GF2_DIM];
    let mut odd = unzero_bit_matrix();
    gf2_matrix_square(&mut even, &odd);
    proof {
        lemma_squared_unzero(odd@, 1);
    }
    gf2_matrix_square(&mut odd, &even);
    proof {
        lemma_squared_unzero(even@, 2);
    }

    // Each round squares the operator once more: in round `j` it takes out
    // `8 * 2^j` zero bits, the weight of bit `j` of the length.
    let mut len2 = suffix_len;
    let ghost mut p: nat = 1;
    while len2 != 0
        invariant
            p > 0,
            is_unzero_op(odd@, 4 * p),
            len2 == suffix_len as nat / p,
            crc1 == unzero_bits(c0, 8 * (suffix_len as nat % p)),
        decreases len2,
    {
        gf2_matrix_square(&mut even, &odd);
        proof {
            lemma_squared_unzero(odd@, 4 * p);
            assert(2 * (4 * p) == 8 * p) by (nonlinear_arith);
            lemma_mod_breakdown(suffix_len as int, p as int, 2);
            lemma_div_denominator(suffix_len as int, p as int, 2);
            assert(len2 & 1 == len2 % 2) by (bit_vector);
            assert(len2 >> 1 == len2 / 2) by (bit_vector);
        }
        let ghost m = suffix_len as nat % p;
        if len2 & 1 != 0 {
            proof {
                lemma_mat_apply_unzero(even@, 8 * p, crc1);
                lemma_unzero_bits_add(c0, 8 * m, 8 * p);
                assert(8 * m + 8 * p == 8 * (p * 1 + m)) by (nonlinear_arith);
            }
            crc1 = gf2_matrix_times(&even, crc1);
        } else {
            assert(p * 0 + m == m);
        }
        len2 >>= 1;
        odd = even;
        proof {
            assert(4 * (p * 2) == 8 * p) by (nonlinear_arith);
            p = p * 2;
        }
    }
    proof {
        assert(suffix_len < p) by {
            if suffix_len >= p {
                vstd::arithmetic::div_mod::lemma_div_is_ordered(p as int, suffix_len as int, p as int);
                vstd::arithmetic::div_mod::lemma_div_by_self(p as int);
            }
        }
        lemma_small_mod(suffix_len as nat, p);
    }
    crc1
}

/// A zero-length trailing part leaves the total unchanged, whatever its CRC.
pub proof fn lemma_trim_empty_suffix(total_crc: u32, suffix_crc: u32)
    ensures
        trimmed(total_crc, suffix_crc, 0) == total_crc,
{
}

/// Trimming a block off a combination gives back the first operand.
pub proof fn lemma_trim_combined(crc_a: u32, crc_b: u32, len_b: nat)
    ensures
        trimmed(combined(crc_a, crc_b, len_b), crc_b, len_b) == crc_a,
{
    if len_b > 0 {
        let z = zero_bits(crc_a, 8 * len_b);
        assert((z ^ crc_b) ^ crc_b == z) by (bit_vector);
        lemma_unzero_zero_bits(crc_a, 8 * len_b);
    }
}

/// Combining twice with the same leading CRC and length gives back the other CRC:
/// if `t` combines `a` with `s`, then combining `a` with `t` gives `s`. With `t` the
/// CRC of a whole stream and `a` that of its head, this is how the CRC of the tail
/// is derived.
pub proof fn lemma_combined_cancels(crc_a: u32, crc_s: u32, len: nat)
    requires
        len > 0,
    ensures
        combined(crc_a, combined(crc_a, crc_s, len), len) == crc_s,
{
    let z = zero_bits(crc_a, 8 * len);
    assert(z ^ (z ^ crc_s) == crc_s) by (bit_vector);
}

} // verus!
