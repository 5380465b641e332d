use redrum::{
    analyze_character_shifts, analyze_combined_hashes, char_at_position, concat_char_hashes,
    hash_individual_chars, hash_string, NO_INDEX, PLACEHOLDER,
};

#[test]
fn test_analyze_combined_hashes() {
    let (word_hash, char_hashes, combined_hash) = analyze_combined_hashes("TEST");
    assert_eq!(word_hash.len(), 64);
    assert_eq!(char_hashes.len(), 4);
    assert_eq!(combined_hash.len(), 64);
}

#[test]
fn test_analyze_character_shifts() {
    let word = "TEST";
    let word_hash = "a".repeat(64); // Mock hash
    let combined_hash = "b".repeat(64); // Mock hash
    let shifts = analyze_character_shifts(word, &word_hash, &combined_hash);

    assert_eq!(shifts.len(), 4); // Should have same length as input word
    assert_eq!(shifts[0].0, 'T'); // First character should be 'T'
    assert_eq!(shifts[0].1, 19); // 'T' should have index 19
}

#[test]
fn combined_hashes_of_test() {
    let (word_hash, char_hashes, combined_hash) = analyze_combined_hashes("TEST");
    assert_eq!(
        word_hash,
        "94ee059335e587e501cc4bf90613e0814f00a7b08bc7c648fd865a2af6a22cc2"
    );
    assert_eq!(
        char_hashes,
        vec![
            (
                'T',
                "e632b7095b0bf32c260fa4c539e9fd7b852d0de454e9be26f24d0d6f91d069d3".to_string()
            ),
            (
                'E',
                "a9f51566bd6705f7ea6ad54bb9deb449f795582d6529a0e22207b8981233ec58".to_string()
            ),
            (
                'S',
                "8de0b3c47f112c59745f717a626932264c422a7563954872e237b223af4ad643".to_string()
            ),
            (
                'T',
                "e632b7095b0bf32c260fa4c539e9fd7b852d0de454e9be26f24d0d6f91d069d3".to_string()
            ),
        ]
    );
    assert_eq!(
        combined_hash,
        "8e51be3bfb7305f1788ce2ab143017746684f714de45e83284d0809dcf5a29cc"
    );
}

#[test]
fn combined_hash_is_the_digest_of_the_joined_digests() {
    for word in ["", "A", "AB", "REDRUM", "aé日"] {
        let (word_hash, char_hashes, combined_hash) = analyze_combined_hashes(word);
        assert_eq!(word_hash, hash_string(word));
        assert_eq!(char_hashes, hash_individual_chars(word));
        let mut joined = String::new();
        for (_, digest) in &char_hashes {
            joined.push_str(digest);
        }
        assert_eq!(joined.len(), 64 * word.chars().count());
        assert_eq!(combined_hash, hash_string(&joined));
    }
}

#[test]
fn combined_hash_of_empty_word_is_the_digest_of_nothing() {
    let (word_hash, char_hashes, combined_hash) = analyze_combined_hashes("");
    assert!(char_hashes.is_empty());
    assert_eq!(combined_hash, hash_string(""));
    assert_eq!(word_hash, hash_string(""));
    assert_eq!(
        combined_hash,
        "e3b0c44298fc1c149afbf4c8996fb92427ae41e4649b934ca495991b7852b855"
    );
}

#[test]
fn combined_hash_depends_on_the_order_of_the_characters() {
    let (_, pairs_ab, combined_ab) = analyze_combined_hashes("AB");
    let (_, pairs_ba, combined_ba) = analyze_combined_hashes("BA");
    assert_eq!(pairs_ab[0], pairs_ba[1]);
    assert_eq!(pairs_ab[1], pairs_ba[0]);
    assert_eq!(
        combined_ab,
        "b30ab174f7459cdd40a3acdf15d0c9444fec2adcfb9d579aa154c084885edd0a"
    );
    assert_eq!(
        combined_ba,
        "7c09e6a60e044bb88e0351f5f27214b0a47c2468c2662bff4bbe4612ff47f783"
    );
}

#[test]
fn combined_hash_of_redrum() {
    let (_, _, combined_hash) = analyze_combined_hashes("REDRUM");
    assert_eq!(
        combined_hash,
        "b015314e9e4693d686f33c08812b78b56563b8679a0074444fb9ac20bbe51f4e"
    );
}

#[test]
fn concat_char_hashes_joins_in_order_without_separators() {
    assert_eq!(concat_char_hashes(&vec![]), "");
    let pairs = vec![
        ('x', "01".to_string()),
        ('y', "ab".to_string()),
        ('x', "ff".to_string()),
    ];
    assert_eq!(concat_char_hashes(&pairs), "01abff");
}

#[test]
fn character_shifts_of_test() {
    let word_hash = "a".repeat(64);
    let combined_hash = "b".repeat(64);
    let shifts = analyze_character_shifts("TEST", &word_hash, &combined_hash);
    assert_eq!(
        shifts,
        vec![
            ('T', 19, 'a', 'b'),
            ('E', 4, 'a', 'b'),
            ('S', 18, 'a', 'b'),
            ('T', 19, 'a', 'b'),
        ]
    );
}

#[test]
fn character_shifts_read_the_digests_by_position() {
    let (word_hash, _, combined_hash) = analyze_combined_hashes("REDRUM");
    let shifts = analyze_character_shifts("REDRUM", &word_hash, &combined_hash);
    assert_eq!(
        shifts,
        vec![
            ('R', 17, '7', 'b'),
            ('E', 4, '0', '0'),
            ('D', 3, '1', '1'),
            ('R', 17, 'b', '5'),
            ('U', 20, '3', '3'),
            ('M', 12, 'c', '1'),
        ]
    );
}

#[test]
fn character_shifts_of_empty_word_are_empty() {
    assert!(analyze_character_shifts("", &"a".repeat(64), &"b".repeat(64)).is_empty());
    assert!(analyze_character_shifts("", "", "").is_empty());
}

#[test]
fn character_shifts_wrap_round_a_digest() {
    let word_hash = hash_string("x");
    let combined_hash = "0123456789abcdef".repeat(4);
    let word = "A".repeat(130);
    let shifts = analyze_character_shifts(&word, &word_hash, &combined_hash);
    assert_eq!(shifts.len(), 130);
    let word_chars: Vec<char> = word_hash.chars().collect();
    let combined_chars: Vec<char> = combined_hash.chars().collect();
    for (i, record) in shifts.iter().enumerate() {
        assert_eq!(*record, ('A', 0, word_chars[i % 64], combined_chars[i % 64]));
    }
    assert_eq!(shifts[64].3, '0');
    assert_eq!(shifts[65].3, '1');
    assert_eq!(shifts[129].3, '1');
}

#[test]
fn character_shifts_with_digests_of_different_lengths() {
    let shifts = analyze_character_shifts("abcde", "xy", "pqr");
    assert_eq!(
        shifts,
        vec![
            ('a', 0, 'x', 'p'),
            ('b', 1, 'y', 'q'),
            ('c', 2, 'x', 'r'),
            ('d', 3, 'y', 'p'),
            ('e', 4, 'x', 'q'),
        ]
    );
}

#[test]
fn character_shifts_give_the_placeholder_for_an_empty_digest() {
    assert_eq!(PLACEHOLDER, '?');
    let shifts = analyze_character_shifts("AB", "", "cd");
    assert_eq!(shifts, vec![('A', 0, '?', 'c'), ('B', 1, '?', 'd')]);
    let shifts = analyze_character_shifts("AB", "cd", "");
    assert_eq!(shifts, vec![('A', 0, 'c', '?'), ('B', 1, 'd', '?')]);
}

#[test]
fn character_shifts_give_no_index_to_non_letters() {
    let shifts = analyze_character_shifts("R2-é", "ab", "cd");
    assert_eq!(
        shifts,
        vec![
            ('R', 17, 'a', 'c'),
            ('2', NO_INDEX, 'b', 'd'),
            ('-', NO_INDEX, 'a', 'c'),
            ('é', NO_INDEX, 'b', 'd'),
        ]
    );
}

#[test]
fn char_at_position_wraps_and_guards() {
    assert_eq!(char_at_position("abc", 0), 'a');
    assert_eq!(char_at_position("abc", 2), 'c');
    assert_eq!(char_at_position("abc", 3), 'a');
    assert_eq!(char_at_position("abc", 100), 'b');
    assert_eq!(char_at_position("", 0), '?');
    assert_eq!(char_at_position("", 7), '?');
}

#[test]
fn char_at_position_wraps_at_the_number_of_characters() {
    // Two characters in three bytes: positions wrap at two.
    assert_eq!(char_at_position("éa", 0), 'é');
    assert_eq!(char_at_position("éa", 1), 'a');
    assert_eq!(char_at_position("éa", 2), 'é');
    assert_eq!(char_at_position("éa", 3), 'a');
    assert_eq!(char_at_position("日", 5), '日');
}

#[test]
fn character_shifts_read_digests_by_character() {
    let shifts = analyze_character_shifts("abc", "éa", "日本語");
    assert_eq!(
        shifts,
        vec![('a', 0, 'é', '日'), ('b', 1, 'a', '本'), ('c', 2, 'é', '語')]
    );
}
