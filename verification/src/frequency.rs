//! How often each character occurs in a text.

use crate::digest::is_digest;
use crate::hex::is_lower_hex;
use std::collections::HashMap;
use vstd::prelude::*;
use vstd::string::StrSliceExecFns;

verus! {

/// The number of positions of `s` that hold `c`.
pub open spec fn occurrences(s: Seq<char>, c: char) -> nat
    decreases s.len(),
{
    if s.len() == 0 {
        0
    } else {
        occurrences(s.drop_last(), c) + if s.last() == c {
            1nat
        } else {
            0nat
        }
    }
}

/// The frequency map of `s`: its keys are the characters that occur in `s`,
/// and each is mapped to the number of its occurrences.
pub open spec fn char_counts(s: Seq<char>) -> Map<char, nat> {
    Map::new(|c: char| s.contains(c), |c: char| occurrences(s, c))
}

/// What a map of counts holds, each count as a natural number.
pub open spec fn counts_of(freq: Map<char, usize>) -> Map<char, nat> {
    Map::new(|c: char| freq.contains_key(c), |c: char| freq[c] as nat)
}

/// The sum of the values of a finite map.
pub open spec fn sum_counts(m: Map<char, nat>) -> nat
    decreases m.dom().len(),
    when m.dom().finite()
{
    if m.dom().len() == 0 {
        0
    } else {
        let c = m.dom().choose();
        m[c] + sum_counts(m.remove(c))
    }
}

/// A character occurs in `s` at most as often as `s` is long, and not at all
/// exactly when `s` does not contain it.
pub proof fn lemma_occurrences_bounds(s: Seq<char>, c: char)
    ensures
        occurrences(s, c) <= s.len(),
        occurrences(s, c) > 0 <==> s.contains(c),
    decreases s.len(),
{
    if s.len() > 0 {
        let init = s.drop_last();
        lemma_occurrences_bounds(init, c);
        if s.contains(c) {
            let i = choose|i: int| 0 <= i < s.len() && s[i] == c;
            if i < s.len() - 1 {
                assert(init[i] == c);
            }
        }
        if init.contains(c) {
            let i = choose|i: int| 0 <= i < init.len() && init[i] == c;
            assert(s[i] == c);
        }
        if s.last() == c {
            assert(s[s.len() - 1] == c);
        }
    }
}

/// One more character at the end adds one occurrence of that character and
/// none of any other.
pub proof fn lemma_occurrences_push(s: Seq<char>, d: char, c: char)
    ensures
        occurrences(s.push(d), c) == occurrences(s, c) + if d == c {
            1nat
        } else {
            0nat
        },
{
    assert(s.push(d).drop_last() =~= s);
}

/// The sum of a finite map's values may be taken from any key first.
pub proof fn lemma_sum_counts_remove(m: Map<char, nat>, k: char)
    requires
        m.dom().finite(),
        m.dom().contains(k),
    ensures
        sum_counts(m) == m[k] + sum_counts(m.remove(k)),
    decreases m.dom().len(),
{
    let c = m.dom().choose();
    if c != k {
        lemma_sum_counts_remove(m.remove(c), k);
        lemma_sum_counts_remove(m.remove(k), c);
        assert(m.remove(c).remove(k) =~= m.remove(k).remove(c));
    }
}

/// Setting the value of one key changes the sum by the difference between
/// the new value and the old one, where an absent key counts as zero.
pub proof fn lemma_sum_counts_insert(m: Map<char, nat>, k: char, v: nat)
    requires
        m.dom().finite(),
    ensures
        sum_counts(m.insert(k, v)) + (if m.dom().contains(k) {
            m[k]
        } else {
            0nat
        }) == sum_counts(m) + v,
{
    lemma_sum_counts_remove(m.insert(k, v), k);
    if m.dom().contains(k) {
        lemma_sum_counts_remove(m, k);
        assert(m.insert(k, v).remove(k) =~= m.remove(k));
    } else {
        assert(m.insert(k, v).remove(k) =~= m);
    }
}

/// The frequency map of a text with one more character at its end is that
/// of the text with the count of that character raised by one.
pub proof fn lemma_char_counts_push(s: Seq<char>, d: char)
    ensures
        char_counts(s.push(d)) == char_counts(s).insert(d, occurrences(s, d) + 1),
        char_counts(s).dom().finite(),
{
    let longer = s.push(d);
    assert forall|c: char| longer.contains(c) <==> (s.contains(c) || c == d) by {
        if s.contains(c) {
            let i = choose|i: int| 0 <= i < s.len() && s[i] == c;
            assert(longer[i] == c);
        }
        if c == d {
            assert(longer[s.len() as int] == c);
        }
    }
    assert forall|c: char| occurrences(longer, c) == occurrences(s, c) + if d == c {
        1nat
    } else {
        0nat
    } by {
        lemma_occurrences_push(s, d, c);
    }
    assert(char_counts(longer) =~= char_counts(s).insert(d, occurrences(s, d) + 1));
    lemma_char_counts_finite(s);
}

/// A text holds finitely many different characters.
pub proof fn lemma_char_counts_finite(s: Seq<char>)
    ensures
        char_counts(s).dom().finite(),
{
    vstd::seq_lib::seq_to_set_is_finite(s);
    assert(char_counts(s).dom() =~= s.to_set());
}

/// The counts of a text's characters sum to its length.
pub proof fn lemma_counts_sum_to_length(s: Seq<char>)
    ensures
        sum_counts(char_counts(s)) == s.len(),
    decreases s.len(),
{
    if s.len() == 0 {
        assert(char_counts(s).dom() =~= Set::empty());
    } else {
        let init = s.drop_last();
        let d = s.last();
        assert(init.push(d) =~= s);
        lemma_counts_sum_to_length(init);
        lemma_char_counts_push(init, d);
        lemma_occurrences_bounds(init, d);
        lemma_sum_counts_insert(char_counts(init), d, occurrences(init, d) + 1);
    }
}

/// In the frequency map of a digest only lowercase hexadecimal digits have
/// a count, and the counts sum to 64.
pub proof fn lemma_digest_frequency(digest: Seq<char>)
    requires
        is_digest(digest),
    ensures
        sum_counts(char_counts(digest)) == 64,
        forall|c: char| char_counts(digest).contains_key(c) ==> is_lower_hex(c),
{
    lemma_counts_sum_to_length(digest);
    assert forall|c: char| char_counts(digest).contains_key(c) implies is_lower_hex(c) by {
        let i = choose|i: int| 0 <= i < digest.len() && digest[i] == c;
        assert(is_lower_hex(digest[i]));
    }
}

/// `entries` holds the pair of `c` and `n` at some position.
spec fn has_entry(entries: Seq<(char, usize)>, c: char, n: usize) -> bool {
    exists|i: int| 0 <= i < entries.len() && #[trigger] entries[i] == (c, n)
}

/// `tally` lists each character of `s` once, beside the number of its
/// occurrences in `s`, and nothing else.
spec fn is_tally_of(tally: Seq<(char, usize)>, s: Seq<char>) -> bool {
    &&& forall|i: int, j: int|
        0 <= i < j < tally.len() ==> (#[trigger] tally[i]).0 != (#[trigger] tally[j]).0
    &&& forall|i: int|
        0 <= i < tally.len() ==> 0 < (#[trigger] tally[i]).1 == occurrences(s, tally[i].0)
    &&& forall|p: int|
        0 <= p < s.len() ==> exists|i: int|
            0 <= i < tally.len() && (#[trigger] tally[i]).0 == #[trigger] s[p]
}

/// Calls `HashMap::from_iter` of std (the `FromIterator` impl of `HashMap`)
/// on the entries. Nothing is proved of it: the contract states that the
/// keys of the map are the characters of the entries, and that each key is
/// mapped to a value that stands beside it in some entry.
#[verifier::external_body]
fn map_of_entries(entries: Vec<(char, usize)>) -> (map: HashMap<char, usize>)
    ensures
        forall|c: char, n: usize| has_entry(entries@, c, n) ==> map@.contains_key(c),
        forall|c: char| #[trigger] map@.contains_key(c) ==> has_entry(entries@, c, map@[c]),
{
    HashMap::from_iter(entries)
}

/// The position of the entry of `c`, if there is one.
fn entry_position(tally: &Vec<(char, usize)>, c: char) -> (found: Option<usize>)
    ensures
        match found {
            Some(j) => j < tally.len() && tally[j as int].0 == c,
            None => forall|i: int| 0 <= i < tally.len() ==> (#[trigger] tally[i]).0 != c,
        },
{
    let mut j: usize = 0;
    while j < tally.len()
        invariant
            j <= tally.len(),
            forall|i: int| 0 <= i < j ==> (#[trigger] tally[i]).0 != c,
        decreases tally.len() - j,
    {
        if tally[j].0 == c {
            return Some(j);
        }
        j = j + 1;
    }
    None
}

/// Counts the occurrences of each character of `text`, each character
/// listed once.
fn tally_chars(text: &str) -> (tally: Vec<(char, usize)>)
    ensures
        is_tally_of(tally@, text@),
{
    let length: usize = text.unicode_len();
    let mut tally: Vec<(char, usize)> = Vec::new();
    let chars = text.chars();
    for c in it: chars
        invariant
            it.seq() == text@,
            length == text@.len(),
            is_tally_of(tally@, text@.take(it.index())),
    {
        let ghost seen = text@.take(it.index());
        let ghost before = tally@;
        proof {
            assert(text@.take(it.index() + 1) =~= seen.push(c));
            lemma_occurrences_bounds(seen, c);
            assert forall|d: char| #[trigger]
                occurrences(seen.push(c), d) == occurrences(seen, d) + if c == d {
                    1nat
                } else {
                    0nat
                } by {
                lemma_occurrences_push(seen, c, d);
            }
        }
        let ghost at: int;
        match entry_position(&tally, c) {
            Some(j) => {
                let count: usize = tally[j].1;
                tally.set(j, (c, count + 1));
                proof {
                    at = j as int;
                }
            },
            None => {
                proof {
                    if seen.contains(c) {
                        let p = choose|p: int| 0 <= p < seen.len() && seen[p] == c;
                        let i = choose|i: int|
                            0 <= i < before.len() && (#[trigger] before[i]).0 == seen[p];
                    }
                    at = before.len() as int;
                }
                tally.push((c, 1));
            },
        }
        proof {
            let now = seen.push(c);
            assert(tally@[at].0 == c);
            assert forall|p: int| 0 <= p < now.len() implies exists|i: int|
                0 <= i < tally.len() && (#[trigger] tally@[i]).0 == #[trigger] now[p] by {
                if p < seen.len() {
                    let i = choose|i: int|
                        0 <= i < before.len() && (#[trigger] before[i]).0 == seen[p];
                    assert(tally@[i].0 == now[p]);
                } else {
                    assert(tally@[at].0 == now[p]);
                }
            }
        }
    }
    assert(text@.take(text@.len() as int) =~= text@);
    tally
}

/// Counts the occurrences of each character of `hash`. The map holds the
/// characters that occur, each with its count; the counts sum to the number
/// of characters of `hash`.
pub fn calculate_frequency(hash: &str) -> (freq: HashMap<char, usize>)
    ensures
        counts_of(freq@) == char_counts(hash@),
        forall|c: char| freq@.contains_key(c) <==> hash@.contains(c),
        forall|c: char| freq@.contains_key(c) ==> freq@[c] == occurrences(hash@, c),
        sum_counts(counts_of(freq@)) == hash@.len(),
{
    let tally = tally_chars(hash);
    let ghost entries = tally@;
    let freq = map_of_entries(tally);
    proof {
        assert forall|c: char| freq@.contains_key(c) implies hash@.contains(c) && freq@[c]
            == occurrences(hash@, c) by {
            let i = choose|i: int|
                0 <= i < entries.len() && #[trigger] entries[i] == (c, freq@[c]);
            lemma_occurrences_bounds(hash@, c);
        }
        assert forall|c: char| hash@.contains(c) implies freq@.contains_key(c) by {
            let p = choose|p: int| 0 <= p < hash@.len() && hash@[p] == c;
            let i = choose|i: int| 0 <= i < entries.len() && (#[trigger] entries[i]).0 == hash@[p];
            assert(has_entry(entries, c, entries[i].1));
        }
        assert(counts_of(freq@) =~= char_counts(hash@));
        lemma_counts_sum_to_length(hash@);
    }
    freq
}

} // verus!
