//! Recovers the CRC-32 of the unseen tail of a byte stream from the bytes of its
//! head, the stream's length and the CRC-32 of the whole stream.
pub mod advance;
pub mod crc;
pub mod gf2;
pub mod suffix;
pub mod trim;
pub mod zeros;

pub use advance::suffix_crc_by_table;
pub use suffix::{suffix_crc, suffix_crc_from_prefix_crc, SuffixError, MAX_TARGET_SIZE};
pub use trim::prefix_crc;
pub use zeros::{zero_run_crc, zero_run_crc_from};
