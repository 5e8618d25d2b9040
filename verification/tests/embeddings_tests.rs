use veebot::embeddings::{
    calculate_text_similarity, embedding_counts, similarity_equal, similarity_greater,
    test_embedding_service, EMBEDDING_DIMENSION,
};

#[test]
fn test_embedding_generation() {
    let text = "test";
    let embedding = embedding_counts(text);
    assert_eq!(embedding.char_counts.len(), EMBEDDING_DIMENSION);
}

#[test]
fn test_text_similarity() {
    let text1 = "hello world";
    let text2 = "hello world";
    let text3 = "completely different text";

    let sim_same = calculate_text_similarity(text1, text2);
    let sim_diff = calculate_text_similarity(text1, text3);

    assert!(similarity_greater(&sim_same, &sim_diff));
}

#[test]
fn embedding_counts_of_a_short_text() {
    let e = embedding_counts("ab");
    assert_eq!(e.position_counts.len(), EMBEDDING_DIMENSION);
    assert_eq!(e.char_counts[97], 1);
    assert_eq!(e.char_counts[98], 1);
    assert_eq!(e.char_counts[0], 0);
    assert_eq!(e.position_counts[0], 1);
    assert_eq!(e.position_counts[7], 1);
    assert_eq!(e.position_counts[14], 0);
    let total: usize = e.char_counts.iter().sum();
    assert_eq!(total, 2);
}

#[test]
fn embedding_counts_wrap_code_points() {
    // 'ȁ' is U+0201 = 513, which falls in slot 1.
    let e = embedding_counts("\u{201}");
    assert_eq!(e.char_counts[1], 1);
}

#[test]
fn similarity_of_overlapping_texts_is_exact() {
    let s = calculate_text_similarity("hello world", "goodbye world");
    assert_eq!(s.shared, 1);
    assert_eq!(s.count1, 2);
    assert_eq!(s.count2, 2);
    // (1/3 + 1) / 2 = 2/3
    assert_eq!(s.exact_fraction(), (8, 12));
}

#[test]
fn similarity_ignores_case_and_repeats() {
    let s = calculate_text_similarity("Hello HELLO world", "hello world");
    assert_eq!(s.shared, 2);
    assert_eq!(s.count1, 2);
    assert_eq!(s.count2, 2);
    let (n, d) = s.exact_fraction();
    assert_eq!(n, d);
}

#[test]
fn similarity_of_empty_texts_is_one_half() {
    let s = calculate_text_similarity("", "   ");
    assert_eq!(s.exact_fraction(), (1, 2));
}

#[test]
fn similarity_with_different_lengths() {
    // words {a, b, c, d} and {a}: overlap 1/4, length 1 - 3/4 = 1/4, mean 1/4
    let s = calculate_text_similarity("a b c d", "a");
    let (n, d) = s.exact_fraction();
    assert_eq!(n * 4, d);
}

#[test]
fn law_symmetry_on_examples() {
    let a = calculate_text_similarity("the quick brown fox", "the lazy dog");
    let b = calculate_text_similarity("the lazy dog", "the quick brown fox");
    assert!(similarity_equal(&a, &b));
    assert_eq!(a.exact_fraction(), b.exact_fraction());
}

#[test]
fn law_self_similarity_on_examples() {
    let same = calculate_text_similarity("one two three", "one two three");
    let other = calculate_text_similarity("one two three", "one two four");
    let (n, d) = same.exact_fraction();
    assert_eq!(n, d);
    assert!(similarity_greater(&same, &other));
    assert!(!similarity_greater(&other, &same));
}

#[test]
fn law_unit_range_on_examples() {
    for (a, b) in [("x y", "z"), ("", "word"), ("a a a", "b")] {
        let (n, d) = calculate_text_similarity(a, b).exact_fraction();
        assert!(d > 0);
        assert!(n <= d);
    }
}

#[test]
fn embedding_service_check_passes() {
    assert!(test_embedding_service());
}

#[test]
fn law_ascii_text_with_a_word_is_fully_similar_to_itself() {
    for t in ["one", "  Two words ", "a-b c.d"] {
        let (n, d) = calculate_text_similarity(t, t).exact_fraction();
        assert_eq!(n, d, "{}", t);
    }
    assert_eq!(calculate_text_similarity("", "").exact_fraction(), (1, 2));
}
