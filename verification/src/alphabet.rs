//! Position of a Latin letter in the alphabet, without regard to case.

use vstd::prelude::*;

verus! {

/// The index given to a character that is not a Latin letter. It lies outside
/// the range of the indices of letters, which end at 25.
pub const NO_INDEX: u8 = 255;

/// `c` is one of `A`-`Z`, `a`-`z`.
pub open spec fn is_latin_letter(c: char) -> bool {
    ('A' <= c && c <= 'Z') || ('a' <= c && c <= 'z')
}

/// `c` with `a`-`z` mapped to `A`-`Z`; every other character is unchanged.
pub open spec fn to_uppercase(c: char) -> char {
    if 'a' <= c && c <= 'z' {
        (c as int - 32) as char
    } else {
        c
    }
}

/// The zero-based position of `c` in the alphabet: the offset of its
/// uppercase form from `A`. A character that is no Latin letter has
/// [`NO_INDEX`].
pub open spec fn alphabet_index(c: char) -> u8 {
    if is_latin_letter(c) {
        (to_uppercase(c) as int - 'A' as int) as u8
    } else {
        NO_INDEX
    }
}

/// The index of a Latin letter is that of its uppercase form, and lies
/// between 0 and 25.
pub proof fn lemma_alphabet_index_ignores_case(c: char)
    requires
        is_latin_letter(c),
    ensures
        is_latin_letter(to_uppercase(c)),
        alphabet_index(c) == alphabet_index(to_uppercase(c)),
        0 <= alphabet_index(c) <= 25,
{
}

/// The letter with a given index is unique up to case: two Latin letters have
/// the same index exactly when their uppercase forms are equal.
pub proof fn lemma_alphabet_index_injective(a: char, b: char)
    requires
        is_latin_letter(a),
        is_latin_letter(b),
    ensures
        alphabet_index(a) == alphabet_index(b) <==> to_uppercase(a) == to_uppercase(b),
{
}

/// A character is a Latin letter exactly when its index is not [`NO_INDEX`].
pub proof fn lemma_no_index_marks_non_letters(c: char)
    ensures
        is_latin_letter(c) <==> alphabet_index(c) != NO_INDEX,
{
}

/// Maps `a`-`z` to `A`-`Z` and leaves every other character as it is.
fn uppercase(c: char) -> (upper: char)
    ensures
        upper == to_uppercase(c),
{
    if 'a' <= c && c <= 'z' {
        ((c as u8) - 32) as char
    } else {
        c
    }
}

/// Returns the zero-based position of the letter `c` in the alphabet (`A` and
/// `a` give 0, `Z` and `z` give 25), and [`NO_INDEX`] for every character
/// that is not a Latin letter.
pub fn get_alphabet_index(c: char) -> (index: u8)
    ensures
        index == alphabet_index(c),
        is_latin_letter(c) ==> index <= 25,
        !is_latin_letter(c) ==> index == NO_INDEX,
{
    let upper = uppercase(c);
    if 'A' <= upper && upper <= 'Z' {
        (upper as u8) - ('A' as u8)
    } else {
        NO_INDEX
    }
}

} // verus!
