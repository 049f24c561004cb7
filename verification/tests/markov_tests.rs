use lorem_ipsumlike::markov_amet::{
    build_markov_chain, detect_lorem_ipsum, generate_lorem_sample, generate_lorem_model,
    generate_markov_text, jaccard_similarity, LoremError,
};
use rand::rngs::StdRng;
use rand::{RngExt, SeedableRng};

const SEED: &str = "Lorem ipsum dolor sit amet, consectetur adipiscing elit, sed do eiusmod tempor incididunt ut labore et dolore magna aliqua.";

/// A seeded generator whose first draw in `0..bound` is 0, so that a walk
/// starts at the first key of the model.
fn rng_starting_at_first_key(bound: usize) -> StdRng {
    let mut s: u64 = 0;
    loop {
        let mut rng = StdRng::seed_from_u64(s);
        let v: usize = rng.random_range(0..bound);
        if v == 0 {
            return StdRng::seed_from_u64(s);
        }
        s += 1;
    }
}

#[test]
fn test_generate_lorem_sample_produces_ipsum() {
    // Generate a sample of 50 words using the seed.
    let mut rng = rng_starting_at_first_key(18);
    let sample = generate_lorem_sample(SEED, 50, &mut rng).unwrap();
    println!("Generated sample: {}", sample);
    // The generated sample should look like Lorem Ipsum,
    // so the detector should say it is ipsum-like.
    let mut rng2 = rng_starting_at_first_key(18);
    assert!(
        detect_lorem_ipsum(&sample, SEED, 50, &mut rng2).unwrap(),
        "The generated sample was not detected as ipsum-like"
    );
}

#[test]
fn test_detect_non_ipsum_text() {
    let non_ipsum = "This is a regular English sentence that should not be classified as Lorem Ipsum.";
    let mut rng = rng_starting_at_first_key(18);
    assert!(
        !detect_lorem_ipsum(non_ipsum, SEED, 50, &mut rng).unwrap(),
        "Non-ipsum text was incorrectly detected as ipsum-like"
    );
}

#[test]
fn test_generate_lorem_sample() {
    let mut rng = StdRng::seed_from_u64(0);
    let sample = generate_lorem_sample(SEED, 20, &mut rng).unwrap();
    println!("Generated sample: {}", sample);
    assert!(!sample.is_empty());
}

#[test]
fn test_detect_lorem_ipsum() {
    let test_text = "Lorem ipsum dolor sit amet, consectetur adipiscing elit.";
    let mut rng = rng_starting_at_first_key(18);
    let result = detect_lorem_ipsum(test_text, SEED, 30, &mut rng).unwrap();
    // Since test_text is similar to the seed, we expect a positive detection.
    assert!(result);
}

#[test]
fn test_detect_is_deterministic_under_fixed_source() {
    let text = "Lorem ipsum dolor sit amet, consectetur adipiscing elit.";
    let mut rng_a = StdRng::seed_from_u64(42);
    let mut rng_b = StdRng::seed_from_u64(42);
    let a = detect_lorem_ipsum(text, SEED, 30, &mut rng_a).unwrap();
    let b = detect_lorem_ipsum(text, SEED, 30, &mut rng_b).unwrap();
    assert_eq!(a, b);
}

#[test]
fn test_build_markov_chain_successor_lists() {
    let chain = build_markov_chain("a b a c");
    // Pairs: (a,b), (b,a), (a,c); keys in order of first appearance.
    assert_eq!(chain.entries.len(), 2);
    assert_eq!(chain.entries[0].key, "a");
    assert_eq!(chain.entries[0].succs, vec!["b".to_string(), "c".to_string()]);
    assert_eq!(chain.entries[1].key, "b");
    assert_eq!(chain.entries[1].succs, vec!["a".to_string()]);
}

#[test]
fn test_generate_follows_successor_lists() {
    let chain = build_markov_chain("a b a c");
    // Start at the first key, "a": every later word must be a recorded
    // successor of the word before it.
    let mut rng = rng_starting_at_first_key(2);
    let sample = generate_markov_text(&chain, 12, &mut rng).unwrap();
    let words: Vec<&str> = sample.split_whitespace().collect();
    assert_eq!(words[0], "a");
    for pair in words.windows(2) {
        let succs: Vec<&str> = match pair[0].to_lowercase().as_str() {
            "a" => vec!["b", "c"],
            "b" => vec!["a"],
            other => panic!("unexpected key {}", other),
        };
        assert!(succs.contains(&pair[1]));
    }
}

#[test]
fn test_generate_empty_model_is_an_error() {
    let mut rng = StdRng::seed_from_u64(7);
    assert_eq!(generate_lorem_sample("", 10, &mut rng), Err(LoremError::EmptyModel));
    assert_eq!(
        generate_lorem_sample("oneword", 10, &mut rng),
        Err(LoremError::EmptyModel)
    );
    let empty_chain = build_markov_chain("");
    assert_eq!(
        generate_markov_text(&empty_chain, 5, &mut rng),
        Err(LoremError::EmptyModel)
    );
}

#[test]
fn test_detect_with_short_seed_is_an_error() {
    let mut rng = StdRng::seed_from_u64(3);
    assert_eq!(
        detect_lorem_ipsum("anything at all", "solo", 10, &mut rng),
        Err(LoremError::EmptyModel)
    );
}

#[test]
fn test_generate_lorem_model_returns_chain_and_sample() {
    let mut rng = rng_starting_at_first_key(2);
    let (chain, sample) = generate_lorem_model("a b a c", 4, &mut rng).unwrap();
    assert_eq!(chain.entries.len(), 2);
    assert!(!sample.is_empty());
}

fn word_vec(words: &[&str]) -> Vec<String> {
    words.iter().map(|w| w.to_string()).collect()
}

fn jaccard_index(a: &[&str], b: &[&str]) -> f64 {
    let (i, u) = jaccard_similarity(&word_vec(a), &word_vec(b));
    if u == 0 {
        0.0
    } else {
        i as f64 / u as f64
    }
}

#[test]
fn test_jaccard_similarity_values() {
    assert_eq!(jaccard_index(&[], &[]), 0.0);
    assert_eq!(jaccard_index(&["a"], &["a"]), 1.0);
    assert_eq!(jaccard_index(&["a", "b"], &["b", "c"]), 1.0 / 3.0);
    // Duplicates do not change the underlying sets.
    assert_eq!(jaccard_similarity(&word_vec(&["a", "a", "b"]), &word_vec(&["b", "c", "b"])), (1, 3));
}
