use redrum::{calculate_frequency, hash_string};

#[test]
fn test_calculate_frequency() {
    let freq = calculate_frequency("aabbcc");
    assert_eq!(freq[&'a'], 2);
    assert_eq!(freq[&'b'], 2);
    assert_eq!(freq[&'c'], 2);
}

#[test]
fn frequency_holds_only_the_characters_that_occur() {
    let freq = calculate_frequency("aabbcc");
    assert_eq!(freq.len(), 3);
    assert!(!freq.contains_key(&'d'));
}

#[test]
fn frequency_of_empty_text_is_empty() {
    assert!(calculate_frequency("").is_empty());
}

#[test]
fn frequency_counts_scattered_repeats() {
    let freq = calculate_frequency("abracadabra");
    assert_eq!(freq.len(), 5);
    assert_eq!(freq[&'a'], 5);
    assert_eq!(freq[&'b'], 2);
    assert_eq!(freq[&'r'], 2);
    assert_eq!(freq[&'c'], 1);
    assert_eq!(freq[&'d'], 1);
}

#[test]
fn frequency_counts_characters_not_bytes() {
    let freq = calculate_frequency("éé日a");
    assert_eq!(freq.len(), 3);
    assert_eq!(freq[&'é'], 2);
    assert_eq!(freq[&'日'], 1);
    assert_eq!(freq[&'a'], 1);
}

#[test]
fn frequency_is_case_sensitive() {
    let freq = calculate_frequency("aAa");
    assert_eq!(freq[&'a'], 2);
    assert_eq!(freq[&'A'], 1);
}

#[test]
fn frequency_counts_sum_to_the_length() {
    for text in ["", "a", "aabbcc", "abracadabra", "éé日a", "REDRUM REDRUM"] {
        let freq = calculate_frequency(text);
        assert_eq!(freq.values().sum::<usize>(), text.chars().count());
    }
}

#[test]
fn frequency_of_a_digest() {
    let digest = hash_string("REDRUM");
    let freq = calculate_frequency(&digest);
    assert_eq!(freq.values().sum::<usize>(), 64);
    assert!(freq.keys().all(|c| matches!(c, '0'..='9' | 'a'..='f')));
    let mut entries: Vec<(char, usize)> = freq.into_iter().collect();
    entries.sort();
    assert_eq!(
        entries,
        vec![
            ('0', 3),
            ('1', 6),
            ('2', 3),
            ('3', 3),
            ('4', 3),
            ('5', 6),
            ('6', 4),
            ('7', 3),
            ('8', 6),
            ('9', 3),
            ('a', 7),
            ('b', 3),
            ('c', 7),
            ('d', 2),
            ('e', 3),
            ('f', 2),
        ]
    );
}
