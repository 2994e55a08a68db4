//! The CRC-32 computations this library takes from crc32fast.
use vstd::prelude::*;

use crate::trim::combined;

verus! {

/// The CRC-32 (reflected polynomial 0xedb88320, initial and final XOR 0xffffffff)
/// of a byte string.
pub uninterp spec fn crc32_of(data: Seq<u8>) -> u32;

/// Relies on `crc32fast::hash`: the CRC-32 of the bytes, which depends on them alone.
#[verifier::external_body]
pub(crate) fn crc32(data: &[u8]) -> (r: u32)
    ensures
        r == crc32_of(data@),
{
    crc32fast::hash(data)
}

/// Relies on `crc32fast::Hasher::combine` (crc32fast's `combine::combine`) on a hasher made with `new_with_initial(crc1)` and one made with
/// `new_with_initial_len(crc2, len2)`: the first CRC multiplied by `x^(8 * len2)`
/// modulo the polynomial, that is padded with `len2` zero bytes, XOR the second
/// CRC; a zero length gives back the first CRC.
#[verifier::external_body]
pub(crate) fn crc32_combine(crc1: u32, crc2: u32, len2: u64) -> (r: u32)
    ensures
        r == combined(crc1, crc2, len2 as nat),
{
    let mut h = crc32fast::Hasher::new_with_initial(crc1);
    h.combine(&crc32fast::Hasher::new_with_initial_len(crc2, len2));
    h.finalize()
}

} // verus!
