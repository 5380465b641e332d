//! SHA-256 digests, written as 64 lowercase hexadecimal digits.

use crate::hex::{all_lower_hex, hex_string, lemma_hex_string_shape, to_hex};
use sha2::{Digest, Sha256};
use vstd::prelude::*;
use vstd::utf8::encode_utf8;

verus! {

/// The SHA-256 hash of `data`: the 32 bytes that FIPS 180-4 defines.
pub uninterp spec fn sha256(data: Seq<u8>) -> [u8; 32];

/// Calls `Digest::digest` of the `sha2` crate on `Sha256`, which hashes the
/// whole of `data` in one go. Nothing is proved of it: the contract states
/// that the 32 bytes that come back are the SHA-256 hash of `data`, and so
/// the same for the same bytes.
#[verifier::external_body]
fn sha256_bytes(data: &[u8]) -> (out: [u8; 32])
    ensures
        out == sha256(data@),
{
    Sha256::digest(data).into()
}

/// The number of characters of a digest.
pub const DIGEST_LEN: usize = 64;

/// `s` has the form of a digest: 64 lowercase hexadecimal digits.
pub open spec fn is_digest(s: Seq<char>) -> bool {
    s.len() == DIGEST_LEN && all_lower_hex(s)
}

/// The digest of a byte sequence: its SHA-256 hash in lowercase hexadecimal.
pub open spec fn digest_of(data: Seq<u8>) -> Seq<char> {
    hex_string(sha256(data)@)
}

/// The digest of a text: the digest of its UTF-8 encoding.
pub open spec fn digest_of_text(text: Seq<char>) -> Seq<char> {
    digest_of(encode_utf8(text))
}

/// The digest of each character of `word` beside that character, in the
/// order of the word. A character is hashed as the text that holds it alone.
pub open spec fn char_digests(word: Seq<char>) -> Seq<(char, Seq<char>)> {
    Seq::new(word.len(), |i: int| (word[i], digest_of_text(seq![word[i]])))
}

/// The digest of every byte sequence has the form of a digest.
pub proof fn lemma_digest_shape(data: Seq<u8>)
    ensures
        is_digest(digest_of(data)),
{
    lemma_hex_string_shape(sha256(data)@);
}

/// There is one pair for each character of the word; the pair at a position
/// holds the character at that position and a digest, and it depends on that
/// character alone: where two words hold the same character, their pairs
/// there are the same.
pub proof fn lemma_char_digests_follow_word(word: Seq<char>, i: int, other: Seq<char>, j: int)
    requires
        0 <= i < word.len(),
        0 <= j < other.len(),
    ensures
        char_digests(word).len() == word.len(),
        char_digests(word)[i].0 == word[i],
        is_digest(char_digests(word)[i].1),
        word[i] == other[j] ==> char_digests(word)[i] == char_digests(other)[j],
{
    lemma_digest_shape(encode_utf8(seq![word[i]]));
}

/// Computes the digest of `data`.
pub fn hash_bytes(data: &[u8]) -> (digest: String)
    ensures
        digest@ == digest_of(data@),
        is_digest(digest@),
{
    let raw = sha256_bytes(data);
    proof {
        lemma_digest_shape(data@);
    }
    to_hex(raw.as_slice())
}

/// Computes the digest of the UTF-8 encoding of `input`.
pub fn hash_string(input: &str) -> (digest: String)
    ensures
        digest@ == digest_of_text(input@),
        is_digest(digest@),
{
    hash_bytes(input.as_bytes())
}

/// Computes the digest of every character of `input`, in order.
pub fn hash_individual_chars(input: &str) -> (pairs: Vec<(char, String)>)
    ensures
        pairs.deep_view() == char_digests(input@),
        pairs.len() == input@.len(),
        forall|i: int| 0 <= i < pairs.len() ==> (#[trigger] pairs[i]).0 == input@[i],
        forall|i: int| 0 <= i < pairs.len() ==> is_digest(#[trigger] pairs[i].1@),
{
    let mut pairs: Vec<(char, String)> = Vec::new();
    let chars = input.chars();
    for c in it: chars
        invariant
            it.seq() == input@,
            pairs.len() == it.index(),
            forall|i: int|
                0 <= i < pairs.len() ==> (#[trigger] pairs[i]).0 == input@[i] && pairs[i].1@
                    == digest_of_text(seq![input@[i]]),
    {
        let mut single = String::new();
        single.push(c);
        assert(single@ =~= seq![c]);
        let digest = hash_string(single.as_str());
        pairs.push((c, digest));
    }
    proof {
        assert forall|i: int| 0 <= i < pairs.len() implies is_digest(#[trigger] pairs[i].1@) by {
            lemma_digest_shape(encode_utf8(seq![input@[i]]));
        }
        assert(pairs.deep_view() =~= char_digests(input@));
    }
    pairs
}

} // verus!
