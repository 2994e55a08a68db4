//! Peeling a stream's leading bytes one at a time with a 256-entry table, and the
//! derivation of the trailing CRC that this gives.
use vstd::prelude::*;

use crate::crc::{crc32, crc32_combine, crc32_of};
use crate::gf2::{zero_bit, zero_bits, CRC32_POLY};
use crate::suffix::{SuffixError, MAX_TARGET_SIZE};
use crate::trim::{combined, prefix_crc, trimmed};
use crate::zeros::{zero_run, zero_run_crc};

verus! {

/// The initial and final XOR of CRC-32, which maps a public CRC to the register's
/// working form and back.
pub const CRC32_XOR: u32 = 0xffff_ffff;

/// The CRC-32 of one zero byte.
pub open spec fn one_zero_crc() -> u32 {
    crc32_of(seq![0u8])
}

/// Entry of the advance table for a byte whose CRC-32 is `byte_crc`, in a stream of
/// `size` bytes: that byte followed by `size` zero bytes, relative to `size` zero
/// bytes alone.
pub open spec fn advance_entry(byte_crc: u32, size: nat) -> u32 {
    combined(byte_crc, zero_run(one_zero_crc(), size), size) ^ zero_run(one_zero_crc(), size)
}

/// The working register after peeling the bytes of `bytes`, in order, off the head
/// of a stream of `size` bytes, starting from `r`.
pub open spec fn peeled(r: u32, bytes: Seq<u8>, size: nat) -> u32
    decreases bytes.len(),
{
    if bytes.len() == 0 {
        r
    } else {
        let before = peeled(r, bytes.drop_last(), size);
        zero_bits(before, 8) ^ advance_entry(crc32_of(seq![bytes.last()]), size)
    }
}

/// The register after one zero input byte.
pub fn zero_byte_step(r: u32) -> (s: u32)
    ensures
        s == zero_bits(r, 8),
{
    let mut s = r;
    let mut k: u32 = 0;
    while k < 8
        invariant
            k <= 8,
            zero_bits(s, (8 - k) as nat) == zero_bits(r, 8),
        decreases 8 - k,
    {
        proof {
            assert(zero_bits(s, (8 - k) as nat) == zero_bits(zero_bit(s), (8 - (k + 1)) as nat));
        }
        s = (s >> 1) ^ (if s & 1 == 1 { CRC32_POLY } else { 0 });
        k += 1;
    }
    s
}

/// The 256 entries of the advance table for streams of `target_size` bytes.
pub fn advance_table(target_size: u32) -> (t: Vec<u32>)
    ensures
        t@.len() == 256,
        forall|b: int| 0 <= b < 256 ==> #[trigger] t@[b] == advance_entry(
            crc32_of(seq![b as u8]),
            target_size as nat,
        ),
{
    let zeros = zero_run_crc(target_size);
    let mut t: Vec<u32> = Vec::with_capacity(256);
    let mut b: u32 = 0;
    while b < 256
        invariant
            b <= 256,
            t@.len() == b,
            zeros == zero_run(one_zero_crc(), target_size as nat),
            forall|j: int| 0 <= j < b ==> #[trigger] t@[j] == advance_entry(
                crc32_of(seq![j as u8]),
                target_size as nat,
            ),
        decreases 256 - b,
    {
        let byte: [u8; 1] = [b as u8];
        proof {
            assert(byte@ =~= seq![b as u8]);
        }
        let byte_crc = crc32(byte.as_slice());
        t.push(crc32_combine(byte_crc, zeros, target_size as u64) ^ zeros);
        b += 1;
    }
    t
}

/// Peels one leading byte off the stream: the working register of the stream
/// without its first byte and with one zero byte appended, from that of the stream.
pub fn peel_byte(r: u32, table: &Vec<u32>, byte: u8) -> (s: u32)
    requires
        table@.len() == 256,
    ensures
        s == zero_bits(r, 8) ^ table@[byte as int],
{
    zero_byte_step(r) ^ table[byte as usize]
}

/// The advance table's entry for a byte is the CRC of that byte padded with
/// `size` zero bytes: peeling it with the table is peeling it with the plain
/// zero-padding operator.
pub proof fn lemma_advance_entry_is_padding(byte_crc: u32, size: nat)
    requires
        size > 0,
    ensures
        advance_entry(byte_crc, size) == zero_bits(byte_crc, 8 * size),
{
    let z = zero_run(one_zero_crc(), size);
    let p = zero_bits(byte_crc, 8 * size);
    assert((p ^ z) ^ z == p) by (bit_vector);
}

/// The CRC-32 of the trailing `target_size - prefix.len()` bytes of a stream of
/// `target_size` bytes whose CRC-32 is `target_crc` and which starts with `prefix`,
/// derived by peeling the prefix off byte by byte with the advance table, then
/// trimming the `prefix.len()` zero bytes that this leaves at the end.
pub fn suffix_crc_by_table(prefix: &[u8], target_size: usize, target_crc: u32) -> (r: Result<
    u32,
    SuffixError,
>)
    ensures
        r == Err::<u32, SuffixError>(SuffixError::InvalidInput) <==> prefix@.len() >= target_size,
        r == Err::<u32, SuffixError>(SuffixError::LengthDomainExceeded) <==> prefix@.len()
            < target_size && target_size > MAX_TARGET_SIZE,
        prefix@.len() < target_size <= MAX_TARGET_SIZE ==> r == Ok::<u32, SuffixError>(
            trimmed(
                peeled(target_crc ^ CRC32_XOR, prefix@, target_size as nat) ^ CRC32_XOR,
                zero_run(one_zero_crc(), prefix@.len()),
                prefix@.len(),
            ),
        ),
{
    if prefix.len() >= target_size {
        return Err(SuffixError::InvalidInput);
    }
    if target_size > MAX_TARGET_SIZE {
        return Err(SuffixError::LengthDomainExceeded);
    }
    let size = target_size as u32;
    let table = advance_table(size);
    let ghost r0 = target_crc ^ CRC32_XOR;
    let mut r = target_crc ^ CRC32_XOR;
    let mut i: usize = 0;
    while i < prefix.len()
        invariant
            i <= prefix@.len(),
            table@.len() == 256,
            forall|b: int| 0 <= b < 256 ==> #[trigger] table@[b] == advance_entry(
                crc32_of(seq![b as u8]),
                size as nat,
            ),
            r == peeled(r0, prefix@.take(i as int), size as nat),
        decreases prefix@.len() - i,
    {
        proof {
            let next = prefix@.take(i as int + 1);
            assert(next.drop_last() =~= prefix@.take(i as int));
            assert(next.last() == prefix@[i as int]);
            assert(table@[prefix@[i as int] as int] == advance_entry(
                crc32_of(seq![prefix@[i as int]]),
                size as nat,
            )) by {
                let b = prefix@[i as int] as int;
                assert(b as u8 == prefix@[i as int]);
            }
        }
        r = peel_byte(r, &table, prefix[i]);
        i += 1;
    }
    proof {
        assert(prefix@.take(prefix@.len() as int) =~= prefix@);
    }
    let plen = prefix.len() as u32;
    Ok(prefix_crc(r ^ CRC32_XOR, zero_run_crc(plen), plen))
}

} // verus!
