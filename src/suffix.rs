//! The CRC-32 of a stream's unseen trailing part, from its leading bytes, the
//! stream's length and the CRC-32 of the whole stream.
use vstd::prelude::*;

use crate::crc::{crc32, crc32_combine, crc32_of};
use crate::trim::combined;

verus! {

/// Largest stream length, in bytes, that the derivations of a trailing CRC accept.
pub const MAX_TARGET_SIZE: usize = 0xffff_ffff;

/// Why no trailing CRC can be derived.
#[derive(Debug, Clone, Copy, PartialEq, Eq)]
pub enum SuffixError {
    /// The leading part is as long as the whole stream, or longer: there is no
    /// trailing part.
    InvalidInput,
    /// The stream is longer than `MAX_TARGET_SIZE` bytes.
    LengthDomainExceeded,
}

/// The CRC-32 of the trailing part of a stream of `target_size` bytes whose CRC-32
/// is `target_crc`, given the CRC-32 `prefix_crc` of its leading `prefix_len` bytes.
///
/// Since `crc(P || S) == pad(crc(P), len(S)) ^ crc(S)`, where `pad` feeds zero bytes
/// into the register, `crc(S) == pad(crc(P), len(S)) ^ crc(P || S)`: the CRC of the
/// prefix combined with the total as if the total were the CRC of a block of
/// `len(S)` bytes.
pub fn suffix_crc_from_prefix_crc(
    prefix_crc: u32,
    prefix_len: usize,
    target_size: usize,
    target_crc: u32,
) -> (r: Result<u32, SuffixError>)
    ensures
        r == Err::<u32, SuffixError>(SuffixError::InvalidInput) <==> prefix_len >= target_size,
        r == Err::<u32, SuffixError>(SuffixError::LengthDomainExceeded) <==> prefix_len
            < target_size && target_size > MAX_TARGET_SIZE,
        prefix_len < target_size <= MAX_TARGET_SIZE ==> r == Ok::<u32, SuffixError>(
            combined(prefix_crc, target_crc, (target_size - prefix_len) as nat),
        ),
{
    if prefix_len >= target_size {
        return Err(SuffixError::InvalidInput);
    }
    if target_size > MAX_TARGET_SIZE {
        return Err(SuffixError::LengthDomainExceeded);
    }
    let suffix_len = (target_size - prefix_len) as u64;
    Ok(crc32_combine(prefix_crc, target_crc, suffix_len))
}

/// The CRC-32 of the trailing `target_size - prefix.len()` bytes of a stream of
/// `target_size` bytes whose CRC-32 is `target_crc` and which starts with `prefix`.
pub fn suffix_crc(prefix: &[u8], target_size: usize, target_crc: u32) -> (r: Result<
    u32,
    SuffixError,
>)
    ensures
        r == Err::<u32, SuffixError>(SuffixError::InvalidInput) <==> prefix@.len() >= target_size,
        r == Err::<u32, SuffixError>(SuffixError::LengthDomainExceeded) <==> prefix@.len()
            < target_size && target_size > MAX_TARGET_SIZE,
        prefix@.len() < target_size <= MAX_TARGET_SIZE ==> r == Ok::<u32, SuffixError>(
            combined(crc32_of(prefix@), target_crc, (target_size - prefix@.len()) as nat),
        ),
{
    if prefix.len() >= target_size {
        return Err(SuffixError::InvalidInput);
    }
    suffix_crc_from_prefix_crc(crc32(prefix), prefix.len(), target_size, target_crc)
}

} // verus!
