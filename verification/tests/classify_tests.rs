use lorem_ipsumlike::dolor::corpus;
use lorem_ipsumlike::ipsum::{
    add_ipsum, classify_word_with_speller, remove_ipsum, scan_text, IpsumStatus,
};
use lorem_ipsumlike::ipsum_classifier::classify_word;
use spellcheck::Speller;
use std::collections::HashMap;

/// A speller whose dictionary holds exactly the lowercase words of `text`.
fn make_speller(text: &str) -> Speller {
    let mut speller = Speller {
        letters: "abcdefghijklmnopqrstuvwxyz".to_string(),
        n_words: HashMap::new(),
    };
    speller.train(text);
    speller
}

#[test]
fn test_classify_word_for_ipsum_words() {
    let speller = make_speller("tomato");
    // Words from the corpus (filler) should be classified as FullyIpsum.
    assert_eq!(classify_word(&speller, "lorem"), IpsumStatus::FullyIpsum);
    assert_eq!(classify_word(&speller, "ipsum"), IpsumStatus::FullyIpsum);
    // A non-ipsum word (e.g. "tomato") should be classified as NotLorem.
    assert_eq!(classify_word(&speller, "tomato"), IpsumStatus::NotLorem);
}

#[test]
fn test_classify_fully_ipsum() {
    let speller = make_speller("");
    // "lorem", "ipsum", "dolor", etc. should be flagged as filler.
    assert_eq!(classify_word(&speller, "lorem"), IpsumStatus::FullyIpsum);
    assert_eq!(classify_word(&speller, "ipsum"), IpsumStatus::FullyIpsum);
    assert_eq!(classify_word(&speller, "dolor"), IpsumStatus::FullyIpsum);
}

#[test]
fn test_classify_not_lorem() {
    let speller = make_speller("tomato");
    // A word not in the corpus should be considered real.
    assert_eq!(classify_word(&speller, "tomato"), IpsumStatus::NotLorem);
}

#[test]
fn test_classify_partial() {
    let speller = make_speller("lorem");
    // "loremps" is 7 characters and contains "lorem" (5 characters).
    // 5/7 ~ 0.71, so the dictionary-only policy reports Partial.
    if let IpsumStatus::Partial { valid, range } =
        classify_word_with_speller(&speller, "loremps")
    {
        assert_eq!(valid, "lorem");
        assert_eq!(range, 0..5);
    } else {
        panic!("Expected Partial classification for 'loremps'");
    }
}

#[test]
fn test_classify_corpus_root_dominates() {
    // "loremps" contains the dictionary word "lorem" with ratio 5/7 >= 0.7,
    // but "lorem" is itself a corpus member, so the strict policy resolves
    // to FullyIpsum rather than Partial.
    let speller = make_speller("lorem");
    assert_eq!(classify_word(&speller, "lorem"), IpsumStatus::FullyIpsum);
    assert_eq!(classify_word(&speller, "loremps"), IpsumStatus::FullyIpsum);
}

#[test]
fn test_classify_low_coverage_is_filler() {
    // "ab" covers 2/6 of "abcdef", well under the 0.7 threshold.
    let speller = make_speller("ab");
    assert_eq!(
        classify_word_with_speller(&speller, "abcdef"),
        IpsumStatus::FullyIpsum
    );
}

#[test]
fn test_classify_is_case_insensitive() {
    let speller = make_speller("tomato");
    assert_eq!(classify_word(&speller, "TOMATO"), IpsumStatus::NotLorem);
    assert_eq!(classify_word(&speller, "LoReM"), IpsumStatus::FullyIpsum);
}

#[test]
fn test_scan_text_spans_and_statuses() {
    let speller = make_speller("tomato");
    let entries = scan_text(&speller, "lorem tomato");
    assert_eq!(entries.len(), 2);
    assert_eq!(entries[0].0, 0..5);
    assert_eq!(entries[0].1, IpsumStatus::FullyIpsum);
    assert_eq!(entries[1].0, 6..12);
    assert_eq!(entries[1].1, IpsumStatus::NotLorem);

    let spaced = scan_text(&speller, "  hi  tomato ");
    assert_eq!(spaced.len(), 2);
    assert_eq!(spaced[0].0, 2..4);
    assert_eq!(spaced[1].0, 6..12);

    assert_eq!(scan_text(&speller, "").len(), 0);
}

#[test]
fn test_remove_ipsum_keeps_recognized_words() {
    let speller = make_speller("the quick brown fox");
    assert_eq!(remove_ipsum(&speller, "the lorem quick"), "the quick");
    // No filler at all: the text comes back whitespace-normalized.
    assert_eq!(remove_ipsum(&speller, "  the   quick  "), "the quick");
    // All filler: nothing is left.
    assert_eq!(remove_ipsum(&speller, "lorem ipsum dolor"), "");
}

#[test]
fn test_add_ipsum_appends_placeholder() {
    assert_eq!(add_ipsum(""), "lorem ipsum");
    assert_eq!(add_ipsum("hello"), "hello lorem ipsum");
}

#[test]
fn test_remove_then_add_is_not_an_inverse() {
    // The advertised round trip does not reconstruct the input.
    let speller = make_speller("xyz");
    let original = "lorem";
    let removed = remove_ipsum(&speller, original);
    assert_eq!(removed, "");
    let reinserted = add_ipsum(&removed);
    assert_ne!(reinserted, original);
}

#[test]
fn test_corpus_holds_filler_vocabulary() {
    let words = corpus();
    assert!(words.contains(&"lorem"));
    assert!(words.contains(&"ipsum"));
    assert!(words.contains(&"dolor"));
    assert!(!words.contains(&"tomato"));
}
