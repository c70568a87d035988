use zrt::freq::{word_frequency_rankings, word_frequency_tally};

#[test]
fn test_tally_counts_and_first_occurrence_order() {
    let tally = word_frequency_tally("the dog saw the cat");
    assert_eq!(tally, vec![
        ("the".to_string(), 2),
        ("dog".to_string(), 1),
        ("saw".to_string(), 1),
        ("cat".to_string(), 1),
    ]);
}

#[test]
fn test_tally_cleans_words() {
    let tally = word_frequency_tally("Dog! dog, DOG. 123 ---");
    assert_eq!(tally, vec![("dog".to_string(), 3)]);
}

#[test]
fn test_rankings_order_by_count_then_alphabet() {
    let rankings = word_frequency_rankings("b a b c a b");
    assert_eq!(rankings, vec![
        ("b".to_string(), 3),
        ("a".to_string(), 2),
        ("c".to_string(), 1),
    ]);
}

#[test]
fn test_rankings_ties_alphabetical() {
    let rankings = word_frequency_rankings("pear apple pear apple mango");
    assert_eq!(rankings, vec![
        ("apple".to_string(), 2),
        ("pear".to_string(), 2),
        ("mango".to_string(), 1),
    ]);
}

#[test]
fn test_rankings_empty_text() {
    assert!(word_frequency_rankings("").is_empty());
    assert!(word_frequency_rankings("123 ... !!").is_empty());
}
