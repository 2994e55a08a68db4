use crc_trim::advance::{advance_table, peel_byte, zero_byte_step};
use crc_trim::{suffix_crc, suffix_crc_by_table, SuffixError};
use rand_xoshiro::rand_core::{Rng, SeedableRng};
use rand_xoshiro::Xoshiro256StarStar;

fn check_all_splits(target: &[u8]) {
    let target_crc = crc32fast::hash(target);
    for i in 0..target.len() {
        let (prefix, suffix) = target.split_at(i);
        assert_eq!(
            suffix_crc_by_table(prefix, target.len(), target_crc),
            Ok(crc32fast::hash(suffix)),
            "split at {i}"
        );
    }
}

#[test]
fn table_path_hello_world() {
    check_all_splits(b"Hello, world!");
    let r = suffix_crc_by_table(b"Hello, ", 13, crc32fast::hash(b"Hello, world!"));
    assert_eq!(r, Ok(crc32fast::hash(b"world!")));
}

#[test]
fn table_path_zero_streams() {
    for n in [29usize, 30, 31, 128] {
        check_all_splits(&vec![0u8; n]);
    }
}

#[test]
fn table_path_random_stream() {
    let mut target = vec![0; 128];
    Xoshiro256StarStar::seed_from_u64(3).fill_bytes(target.as_mut_slice());
    check_all_splits(&target);
}

#[test]
fn table_path_agrees_with_combine_path() {
    let target = b"0123456789abcdefghijklmnopqrstuvwxyz";
    for crc in [0u32, 0xdeadbeef, u32::MAX] {
        for i in 0..target.len() {
            assert_eq!(
                suffix_crc_by_table(&target[..i], target.len(), crc),
                suffix_crc(&target[..i], target.len(), crc)
            );
        }
    }
}

#[test]
fn table_path_errors() {
    assert_eq!(suffix_crc_by_table(b"ab", 2, 0), Err(SuffixError::InvalidInput));
    assert_eq!(suffix_crc_by_table(b"", 0, 0), Err(SuffixError::InvalidInput));
    if usize::BITS > 32 {
        assert_eq!(
            suffix_crc_by_table(b"ab", (u32::MAX as usize) + 1, 0),
            Err(SuffixError::LengthDomainExceeded)
        );
    }
}

#[test]
fn zero_byte_step_is_crc_of_zero_byte_in_working_form() {
    // Feeding one zero byte into the initial register, then the final XOR,
    // gives the CRC-32 of a single zero byte.
    assert_eq!(zero_byte_step(0xffff_ffff) ^ 0xffff_ffff, crc32fast::hash(&[0u8]));
    assert_eq!(zero_byte_step(0), 0);
    assert_eq!(zero_byte_step(1), 0x77073096);
}

#[test]
fn advance_table_entry_is_padded_byte_crc() {
    let size = 5u32;
    let table = advance_table(size);
    assert_eq!(table.len(), 256);
    for b in [0u8, 1, 0x41, 0xff] {
        let mut h = crc32fast::Hasher::new_with_initial(crc32fast::hash(&[b]));
        h.combine(&crc32fast::Hasher::new_with_initial_len(0, size as u64));
        assert_eq!(table[b as usize], h.finalize());
    }
}

#[test]
fn peel_one_byte_with_table() {
    // Peeling 'H' off "Hello" leaves the working register of "ello\0".
    let table = advance_table(5);
    let r = peel_byte(crc32fast::hash(b"Hello") ^ 0xffff_ffff, &table, b'H');
    assert_eq!(r ^ 0xffff_ffff, crc32fast::hash(b"ello\0"));
}
