//! Linear operators over GF(2)^32 for the reflected CRC-32 register.
//!
//! Feeding one zero bit into the register is a linear map (`zero_bit`), and so is
//! taking one back out (`unzero_bit`). A 32x32 bit matrix stores such a map by the
//! images of the 32 basis vectors: row `i` is the image of the vector whose only
//! set bit is bit `31 - i`.
use vstd::prelude::*;

verus! {

/// Number of rows (and columns) of an operator matrix.
pub const GF2_DIM: usize = 32;

/// The reflected CRC-32 polynomial.
pub const CRC32_POLY: u32 = 0xedb88320;

/// The register's image of its top bit when one zero bit is taken back out:
/// the polynomial shifted left by one, with the low bit set.
pub const CRC32_UNPOLY: u32 = 0xdb710641;

/// The register after one more zero bit of input.
pub open spec fn zero_bit(w: u32) -> u32 {
    (w >> 1u32) ^ (if w & 1u32 == 1u32 { CRC32_POLY } else { 0u32 })
}

/// The register before its last zero bit of input: the inverse of `zero_bit`.
pub open spec fn unzero_bit(w: u32) -> u32 {
    (w << 1u32) ^ (if w >> 31u32 == 1u32 { CRC32_UNPOLY } else { 0u32 })
}

/// The register after `n` more zero bits of input.
pub open spec fn zero_bits(w: u32, n: nat) -> u32
    decreases n,
{
    if n == 0 {
        w
    } else {
        zero_bits(zero_bit(w), (n - 1) as nat)
    }
}

/// The register with its last `n` zero bits of input taken back out.
pub open spec fn unzero_bits(w: u32, n: nat) -> u32
    decreases n,
{
    if n == 0 {
        w
    } else {
        unzero_bits(unzero_bit(w), (n - 1) as nat)
    }
}

/// The basis vector that row `i` of a matrix is the image of.
pub open spec fn basis(i: int) -> u32 {
    1u32 << ((31 - i) as u32)
}

/// XOR of the rows `i..32` of `mat` selected by the bits of `v`, read from the
/// top bit down: the top bit of `v` selects row `i`, the next one row `i + 1`.
pub open spec fn apply_from(mat: Seq<u32>, v: u32, i: nat) -> u32
    decreases 32 - i,
{
    if i >= 32 {
        0u32
    } else {
        (if v >> 31u32 != 0u32 { mat[i as int] } else { 0u32 }) ^ apply_from(mat, v << 1u32, i + 1)
    }
}

/// The image of `v` under the linear map stored in `mat`.
pub open spec fn mat_apply(mat: Seq<u32>, v: u32) -> u32 {
    apply_from(mat, v, 0)
}

/// The matrix of the map `mat` applied twice.
pub open spec fn squared(mat: Seq<u32>) -> Seq<u32> {
    Seq::new(32, |n: int| mat_apply(mat, mat[n]))
}

/// `mat` stores the map "take the last `k` zero bits back out".
pub open spec fn is_unzero_op(mat: Seq<u32>, k: nat) -> bool {
    &&& mat.len() == 32
    &&& forall|i: int| 0 <= i < 32 ==> #[trigger] mat[i] == unzero_bits(basis(i), k)
}

proof fn lemma_xor_facts()
    ensures
        forall|a: u32| #[trigger] (a ^ a) == 0u32,
        forall|a: u32| #[trigger] (a ^ 0u32) == a,
        forall|a: u32| #[trigger] (0u32 ^ a) == a,
        forall|a: u32, b: u32, c: u32| #[trigger] ((a ^ b) ^ c) == a ^ (b ^ c),
        forall|a: u32, b: u32| #[trigger] (a ^ b) == b ^ a,
{
    assert forall|a: u32| #[trigger] (a ^ a) == 0u32 by {
        assert(a ^ a == 0u32) by (bit_vector);
    }
    assert forall|a: u32| #[trigger] (a ^ 0u32) == a by {
        assert(a ^ 0u32 == a) by (bit_vector);
    }
    assert forall|a: u32| #[trigger] (0u32 ^ a) == a by {
        assert(0u32 ^ a == a) by (bit_vector);
    }
    assert forall|a: u32, b: u32, c: u32| #[trigger] ((a ^ b) ^ c) == a ^ (b ^ c) by {
        assert((a ^ b) ^ c == a ^ (b ^ c)) by (bit_vector);
    }
    assert forall|a: u32, b: u32| #[trigger] (a ^ b) == b ^ a by {
        assert(a ^ b == b ^ a) by (bit_vector);
    }
}

/// Rows past the last set bit contribute nothing.
proof fn lemma_apply_from_zero(mat: Seq<u32>, i: nat)
    ensures
        apply_from(mat, 0u32, i) == 0u32,
    decreases 32 - i,
{
    if i < 32 {
        assert(0u32 >> 31u32 == 0u32 && 0u32 << 1u32 == 0u32) by (bit_vector);
        lemma_apply_from_zero(mat, i + 1);
        lemma_xor_facts();
    }
}

proof fn lemma_unzero_bit_linear(a: u32, b: u32)
    ensures
        unzero_bit(a ^ b) == unzero_bit(a) ^ unzero_bit(b),
{
    assert(unzero_bit(a ^ b) == unzero_bit(a) ^ unzero_bit(b)) by (bit_vector);
}

/// Taking zero bits out is linear.
pub proof fn lemma_unzero_bits_linear(a: u32, b: u32, k: nat)
    ensures
        unzero_bits(a ^ b, k) == unzero_bits(a, k) ^ unzero_bits(b, k),
    decreases k,
{
    if k > 0 {
        lemma_unzero_bit_linear(a, b);
        lemma_unzero_bits_linear(unzero_bit(a), unzero_bit(b), (k - 1) as nat);
    }
}

/// Feeding zero bits is linear.
pub proof fn lemma_zero_bits_linear(a: u32, b: u32, k: nat)
    ensures
        zero_bits(a ^ b, k) == zero_bits(a, k) ^ zero_bits(b, k),
    decreases k,
{
    if k > 0 {
        assert(zero_bit(a ^ b) == zero_bit(a) ^ zero_bit(b)) by (bit_vector);
        lemma_zero_bits_linear(zero_bit(a), zero_bit(b), (k - 1) as nat);
    }
}

/// Taking out `a` zero bits and then `b` more is taking out `a + b`.
pub proof fn lemma_unzero_bits_add(w: u32, a: nat, b: nat)
    ensures
        unzero_bits(unzero_bits(w, a), b) == unzero_bits(w, a + b),
    decreases a,
{
    if a > 0 {
        lemma_unzero_bits_add(unzero_bit(w), (a - 1) as nat, b);
        assert((a + b - 1) as nat == (a - 1) as nat + b);
    }
}

/// Feeding `a` zero bits and then `b` more is feeding `a + b`.
pub proof fn lemma_zero_bits_add(w: u32, a: nat, b: nat)
    ensures
        zero_bits(zero_bits(w, a), b) == zero_bits(w, a + b),
    decreases a,
{
    if a > 0 {
        lemma_zero_bits_add(zero_bit(w), (a - 1) as nat, b);
        assert((a + b - 1) as nat == (a - 1) as nat + b);
    }
}

/// Taking out `n` zero bits undoes feeding them.
pub proof fn lemma_unzero_zero_bits(w: u32, n: nat)
    ensures
        unzero_bits(zero_bits(w, n), n) == w,
    decreases n,
{
    if n > 0 {
        let m = (n - 1) as nat;
        let z = zero_bits(w, m);
        lemma_zero_bits_add(w, m, 1);
        reveal_with_fuel(zero_bits, 2);
        assert(zero_bits(z, 1) == zero_bit(z));
        assert(unzero_bit(zero_bit(z)) == z) by (bit_vector);
        lemma_unzero_zero_bits(w, m);
    }
}

/// A matrix whose rows are the images of the basis vectors under `unzero_bits(., k)`
/// applies that map to every vector.
proof fn lemma_apply_from_unzero(mat: Seq<u32>, k: nat, w: u32, i: nat)
    requires
        is_unzero_op(mat, k),
        i < 32,
    ensures
        apply_from(mat, w, i) == unzero_bits(w >> (i as u32), k),
    decreases 32 - i,
{
    let iu = i as u32;
    let top = w >> 31u32 != 0u32;
    let t = if top { mat[i as int] } else { 0u32 };
    lemma_xor_facts();
    assert(unzero_bits(0u32, k) == 0u32) by {
        lemma_unzero_bits_linear(0u32, 0u32, k);
    }
    assert(basis(i as int) == 1u32 << ((31u32 - iu) as u32));
    if i == 31 {
        assert(w >> iu == (if w >> 31u32 != 0u32 { 1u32 << 0u32 } else { 0u32 })) by (bit_vector)
            requires
                iu == 31u32,
        ;
        assert((31u32 - iu) as u32 == 0u32);
        assert(apply_from(mat, w << 1u32, i + 1) == 0u32);
    } else {
        let iu1 = (i + 1) as u32;
        lemma_apply_from_unzero(mat, k, w << 1u32, i + 1);
        let b = if top { 1u32 << ((31u32 - iu) as u32) } else { 0u32 };
        assert(w >> iu == b ^ ((w << 1u32) >> iu1)) by (bit_vector)
            requires
                iu < 31u32,
                iu1 == iu + 1,
                b == (if w >> 31u32 != 0u32 { 1u32 << ((31u32 - iu) as u32) } else { 0u32 }),
        ;
        lemma_unzero_bits_linear(b, (w << 1u32) >> iu1, k);
    }
}

/// See `lemma_apply_from_unzero`, for the whole matrix.
pub proof fn lemma_mat_apply_unzero(mat: Seq<u32>, k: nat, w: u32)
    requires
        is_unzero_op(mat, k),
    ensures
        mat_apply(mat, w) == unzero_bits(w, k),
{
    lemma_apply_from_unzero(mat, k, w, 0);
    assert(w >> 0u32 == w) by (bit_vector);
}

/// Squaring the matrix of "take out `k` zero bits" gives that of "take out `2k`".
pub proof fn lemma_squared_unzero(mat: Seq<u32>, k: nat)
    requires
        is_unzero_op(mat, k),
    ensures
        is_unzero_op(squared(mat), 2 * k),
{
    let sq = squared(mat);
    assert forall|i: int| 0 <= i < 32 implies #[trigger] sq[i] == unzero_bits(basis(i), 2 * k) by {
        lemma_mat_apply_unzero(mat, k, mat[i]);
        lemma_unzero_bits_add(basis(i), k, k);
    }
}

/// The image of `vec` under the linear map whose rows are `mat`.
pub fn gf2_matrix_times(mat: &[u32; GF2_DIM], vec: u32) -> (r: u32)
    ensures
        r == mat_apply(mat@, vec),
{
    let mut vec = vec;
    let ghost v0 = vec;
    let mut sum: u32 = 0;
    let mut i: usize = 0;
    proof {
        lemma_xor_facts();
    }
    while i < GF2_DIM && vec != 0
        invariant
            i <= GF2_DIM,
            sum ^ apply_from(mat@, vec, i as nat) == apply_from(mat@, v0, 0),
        decreases GF2_DIM - i,
    {
        proof {
            lemma_xor_facts();
        }
        if vec >> 31 != 0 {
            sum ^= mat[i];
        }
        vec <<= 1;
        i += 1;
    }
    proof {
        lemma_apply_from_zero(mat@, i as nat);
        lemma_xor_facts();
    }
    sum
}

/// Fills `square` with the matrix of `mat` applied twice.
pub fn gf2_matrix_square(square: &mut [u32; GF2_DIM], mat: &[u32; GF2_DIM])
    ensures
        final(square)@ == squared(mat@),
{
    let mut n: usize = 0;
    while n < GF2_DIM
        invariant
            n <= GF2_DIM,
            square@.len() == 32,
            forall|j: int| 0 <= j < n ==> #[trigger] square@[j] == mat_apply(mat@, mat@[j]),
        decreases GF2_DIM - n,
    {
        square[n] = gf2_matrix_times(mat, mat[n]);
        n += 1;
    }
    assert(square@ =~= squared(mat@));
}

} // verus!
