use crc_trim::{suffix_crc, suffix_crc_from_prefix_crc, SuffixError};
use rand_xoshiro::rand_core::{Rng, SeedableRng};
use rand_xoshiro::Xoshiro256StarStar;

fn test_target(target: &[u8]) -> Result<(), String> {
    let target_crc = crc32fast::hash(target);

    for i in 1..target.len() {
        let (prefix, suffix) = target.split_at(i);
        let expected = crc32fast::hash(suffix);
        let actual = suffix_crc(prefix, target.len(), target_crc).unwrap();
        if expected != actual {
            return Err(format!("{i}: {expected:#08x} != {actual:#08x}"));
        }
    }

    Ok(())
}

#[test]
fn small_test() {
    test_target(b"Hello, world!").unwrap();
}

#[test]
fn small_zero_test() {
    test_target(&[0; 29]).unwrap();
    test_target(&[0; 30]).unwrap();
    test_target(&[0; 31]).unwrap();
    test_target(&[0; 128]).unwrap();
}

#[test]
fn small_rand_test() {
    let mut target = vec![0; 128];
    Xoshiro256StarStar::seed_from_u64(1).fill_bytes(target.as_mut_slice());
    test_target(&target).unwrap();
}

#[test]
fn every_split_including_ends() {
    let target = b"The quick brown fox jumps over the lazy dog";
    let target_crc = crc32fast::hash(target);
    for i in 0..target.len() {
        let (prefix, suffix) = target.split_at(i);
        assert_eq!(
            suffix_crc(prefix, target.len(), target_crc),
            Ok(crc32fast::hash(suffix))
        );
    }
}

#[test]
fn hello_world_split_at_seven() {
    let target = b"Hello, world!";
    let r = suffix_crc(b"Hello, ", 13, crc32fast::hash(target)).unwrap();
    assert_eq!(r, crc32fast::hash(b"world!"));
    assert_ne!(r, crc32fast::hash(target));
}

#[test]
fn check_value_of_digits() {
    // The CRC-32 of "123456789" is 0xcbf43926.
    assert_eq!(crc32fast::hash(b"123456789"), 0xcbf43926);
    let r = suffix_crc(b"1234", 9, 0xcbf43926).unwrap();
    assert_eq!(r, crc32fast::hash(b"56789"));
}

#[test]
fn from_prefix_crc_matches() {
    let target = b"Hello, world!";
    let r = suffix_crc_from_prefix_crc(crc32fast::hash(b"Hello"), 5, 13, crc32fast::hash(target));
    assert_eq!(r, Ok(crc32fast::hash(b", world!")));
}

#[test]
fn midpoint_split_test() {
    let mut target = vec![0; 1024 * 1024];
    Xoshiro256StarStar::seed_from_u64(2).fill_bytes(target.as_mut_slice());
    let target_crc = crc32fast::hash(&target);
    for i in target.len() / 2 - 8..target.len() / 2 + 8 {
        let (prefix, suffix) = target.split_at(i);
        assert_eq!(
            suffix_crc(prefix, target.len(), target_crc),
            Ok(crc32fast::hash(suffix))
        );
    }
}

#[test]
fn prefix_as_long_as_target_is_invalid() {
    assert_eq!(suffix_crc(b"abc", 3, 0), Err(SuffixError::InvalidInput));
    assert_eq!(suffix_crc(b"abcd", 3, 0), Err(SuffixError::InvalidInput));
    assert_eq!(suffix_crc(b"", 0, 0), Err(SuffixError::InvalidInput));
    assert_eq!(
        suffix_crc_from_prefix_crc(0, 7, 7, 0),
        Err(SuffixError::InvalidInput)
    );
}

#[test]
fn target_beyond_ceiling_is_refused() {
    if usize::BITS > 32 {
        let too_big = (u32::MAX as usize) + 1;
        assert_eq!(
            suffix_crc(b"abc", too_big, 0),
            Err(SuffixError::LengthDomainExceeded)
        );
        assert_eq!(
            suffix_crc_from_prefix_crc(0, 3, too_big, 0),
            Err(SuffixError::LengthDomainExceeded)
        );
    }
    let at_ceiling = u32::MAX as usize;
    assert!(suffix_crc(b"abc", at_ceiling, 0).is_ok());
}
