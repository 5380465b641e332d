//! The two analyses of a word: its digests, and the positional comparison of
//! its letters with two digests.

use crate::alphabet::{alphabet_index, get_alphabet_index};
use crate::digest::{char_digests, digest_of_text, hash_individual_chars, hash_string, is_digest};
use crate::hex::is_lower_hex;
use vstd::prelude::*;
use vstd::string::{StrSliceExecFns, StringExecFns};

verus! {

/// The character that stands where a digest has none to give.
pub const PLACEHOLDER: char = '?';

/// The digests of `pairs` one after the other, in order, with nothing
/// between them.
pub open spec fn concat_digests(pairs: Seq<(char, Seq<char>)>) -> Seq<char>
    decreases pairs.len(),
{
    if pairs.len() == 0 {
        Seq::empty()
    } else {
        concat_digests(pairs.drop_last()) + pairs.last().1
    }
}

/// The second-order digest of `word`: the digest of the text made of the
/// digests of its characters, in the order of the word.
pub open spec fn combined_digest(word: Seq<char>) -> Seq<char> {
    digest_of_text(concat_digests(char_digests(word)))
}

/// Where every digest of `pairs` has 64 characters, their concatenation has
/// 64 for each pair, and the digest of a pair stands in it whole, at 64 times
/// the position of the pair.
pub proof fn lemma_concat_digests_keeps_order(pairs: Seq<(char, Seq<char>)>, i: int)
    requires
        forall|k: int| 0 <= k < pairs.len() ==> (#[trigger] pairs[k]).1.len() == 64,
        0 <= i < pairs.len(),
    ensures
        concat_digests(pairs).len() == 64 * pairs.len(),
        concat_digests(pairs).subrange(64 * i, 64 * i + 64) == pairs[i].1,
    decreases pairs.len(),
{
    let init = pairs.drop_last();
    let joined = concat_digests(init);
    if init.len() == 0 {
        assert(joined.len() == 0);
    } else {
        lemma_concat_digests_keeps_order(init, 0);
    }
    if i < init.len() {
        lemma_concat_digests_keeps_order(init, i);
        assert((joined + pairs.last().1).subrange(64 * i, 64 * i + 64) =~= joined.subrange(
            64 * i,
            64 * i + 64,
        ));
    } else {
        assert((joined + pairs.last().1).subrange(64 * i, 64 * i + 64) =~= pairs.last().1);
    }
}

/// Joins the digests of `pairs` into one text, in order and without
/// separators.
pub fn concat_char_hashes(pairs: &Vec<(char, String)>) -> (joined: String)
    ensures
        joined@ == concat_digests(pairs.deep_view()),
{
    let mut joined = String::new();
    let mut i: usize = 0;
    while i < pairs.len()
        invariant
            i <= pairs.len(),
            joined@ == concat_digests(pairs.deep_view().take(i as int)),
        decreases pairs.len() - i,
    {
        joined.append(pairs[i].1.as_str());
        i = i + 1;
        proof {
            let upto = pairs.deep_view().take(i as int);
            assert(upto.drop_last() =~= pairs.deep_view().take(i - 1));
            assert(upto.last().1 == pairs[i - 1].1@);
        }
    }
    assert(pairs.deep_view().take(i as int) =~= pairs.deep_view());
    joined
}

/// Computes the digest of `word`, the digest of each of its characters, and
/// the digest of the concatenation of those per-character digests.
pub fn analyze_combined_hashes(word: &str) -> (result: (String, Vec<(char, String)>, String))
    ensures
        result.0@ == digest_of_text(word@),
        result.1.deep_view() == char_digests(word@),
        result.1.len() == word@.len(),
        result.2@ == digest_of_text(concat_digests(result.1.deep_view())),
        result.2@ == combined_digest(word@),
        is_digest(result.0@),
        is_digest(result.2@),
        forall|i: int| 0 <= i < result.1.len() ==> is_digest(#[trigger] result.1[i].1@),
{
    let word_hash = hash_string(word);
    let char_hashes = hash_individual_chars(word);
    let concatenated = concat_char_hashes(&char_hashes);
    let combined_hash = hash_string(concatenated.as_str());
    (word_hash, char_hashes, combined_hash)
}

/// The character that position `i` of a word reads from `digest`: the one at
/// `i` modulo the number of characters of the digest, so that positions past
/// its end read it again from the start. An empty digest has no character to
/// give, and the result is [`PLACEHOLDER`].
pub open spec fn digest_char_at(digest: Seq<char>, i: int) -> char {
    if digest.len() == 0 {
        PLACEHOLDER
    } else {
        digest[i % digest.len() as int]
    }
}

/// Positions that lie a whole length of the digest apart read the same
/// character.
pub proof fn lemma_digest_char_at_is_cyclic(digest: Seq<char>, i: int)
    requires
        0 <= i,
    ensures
        digest_char_at(digest, i + digest.len()) == digest_char_at(digest, i),
        i < digest.len() ==> digest_char_at(digest, i) == digest[i],
{
    let n = digest.len() as int;
    if n > 0 {
        assert((i + n) % n == i % n) by (nonlinear_arith)
            requires
                n > 0,
                i >= 0,
        ;
    }
    if i < n {
        assert(i % n == i) by (nonlinear_arith)
            requires
                0 <= i < n,
        ;
    }
}

/// A digest gives one of its 64 hexadecimal digits at every position.
pub proof fn lemma_digest_char_at_digest(digest: Seq<char>, i: int)
    requires
        is_digest(digest),
        0 <= i,
    ensures
        digest_char_at(digest, i) == digest[i % 64],
        is_lower_hex(digest_char_at(digest, i)),
{
}

/// The record of position `i` of `word`: the character there, its alphabet
/// index, and the characters that the position reads from the two digests.
pub open spec fn shift_record(
    word: Seq<char>,
    word_hash: Seq<char>,
    combined_hash: Seq<char>,
    i: int,
) -> (char, u8, char, char) {
    (
        word[i],
        alphabet_index(word[i]),
        digest_char_at(word_hash, i),
        digest_char_at(combined_hash, i),
    )
}

/// One record for each character of `word`, in order.
pub open spec fn shift_records(word: Seq<char>, word_hash: Seq<char>, combined_hash: Seq<char>) -> Seq<
    (char, u8, char, char),
> {
    Seq::new(word.len(), |i: int| shift_record(word, word_hash, combined_hash, i))
}

/// Reads the character of `digest` that belongs to position `i` of a word,
/// wrapping round at the end of the digest, and gives [`PLACEHOLDER`] where
/// the digest is empty.
pub fn char_at_position(digest: &str, i: usize) -> (c: char)
    ensures
        c == digest_char_at(digest@, i as int),
        digest@.len() == 0 ==> c == PLACEHOLDER,
        digest@.len() > 0 ==> c == digest@[i as int % digest@.len() as int],
{
    let length: usize = digest.unicode_len();
    if length == 0 {
        PLACEHOLDER
    } else {
        digest.get_char(i % length)
    }
}

/// Pairs each character of `word` with its alphabet index and with the
/// characters at its position in `word_hash` and in `combined_hash`.
pub fn analyze_character_shifts(word: &str, word_hash: &str, combined_hash: &str) -> (shifts: Vec<
    (char, u8, char, char),
>)
    ensures
        shifts@ == shift_records(word@, word_hash@, combined_hash@),
        shifts.len() == word@.len(),
{
    let mut shifts: Vec<(char, u8, char, char)> = Vec::new();
    let chars = word.chars();
    for c in it: chars
        invariant
            it.seq() == word@,
            shifts.len() == it.index(),
            forall|i: int|
                0 <= i < shifts.len() ==> #[trigger] shifts[i] == shift_record(
                    word@,
                    word_hash@,
                    combined_hash@,
                    i,
                ),
    {
        let i: usize = shifts.len();
        let alphabet_index = get_alphabet_index(c);
        let word_hash_char = char_at_position(word_hash, i);
        let combined_hash_char = char_at_position(combined_hash, i);
        shifts.push((c, alphabet_index, word_hash_char, combined_hash_char));
    }
    assert(shifts@ =~= shift_records(word@, word_hash@, combined_hash@));
    shifts
}

} // verus!
