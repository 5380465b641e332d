//! Digest analysis of a word: its SHA-256 digest in lowercase hexadecimal, the
//! digest of each of its characters, the frequency of the characters of a
//! digest, a second-order digest over the per-character digests, and a
//! positional comparison of the word's letters with two digests.

pub mod alphabet;
pub mod analysis;
pub mod digest;
pub mod frequency;
pub mod hex;
pub mod std_specs;

pub use alphabet::{get_alphabet_index, NO_INDEX};
pub use analysis::{
    analyze_character_shifts, analyze_combined_hashes, char_at_position, concat_char_hashes,
    PLACEHOLDER,
};
pub use digest::{hash_bytes, hash_individual_chars, hash_string, DIGEST_LEN};
pub use frequency::calculate_frequency;
pub use hex::to_hex;
