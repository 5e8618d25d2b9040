use veebot::text::{
    chars_of, find, i64_decimal, index_of, join_strings, replace_all, split_char,
    split_whitespace, string_from_chars, trim, trim_char, u128_decimal, u64_decimal, utf8_bytes,
    utf8_len_of,
};

fn text(v: &Vec<char>) -> String {
    v.iter().collect()
}

#[test]
fn trim_removes_unicode_whitespace() {
    assert_eq!(trim("  \t hello world \n"), "hello world");
    assert_eq!(trim("\u{3000}x\u{a0}"), "x");
    assert_eq!(trim("   "), "");
}

#[test]
fn find_reports_first_occurrence_in_chars() {
    let s = chars_of("éaba");
    assert_eq!(find(&s, &chars_of("a")), Some(1));
    assert_eq!(find(&s, &chars_of("ba")), Some(2));
    assert_eq!(find(&s, &chars_of("z")), None);
    assert_eq!(find(&s, &chars_of("")), Some(0));
}

#[test]
fn index_of_finds_first_char() {
    assert_eq!(index_of(&chars_of("a=b=c"), '='), Some(1));
    assert_eq!(index_of(&chars_of("abc"), '='), None);
}

#[test]
fn replace_all_matches_str_replace() {
    let cases = [("aaa", "aa", "b"), ("remember remember", "remember", ""), ("abc", "x", "y")];
    for (s, p, r) in cases {
        let got = replace_all(&chars_of(s), &chars_of(p), &chars_of(r));
        assert_eq!(text(&got), s.replace(p, r));
    }
}

#[test]
fn split_char_keeps_empty_pieces() {
    let pieces = split_char(&chars_of("a\n\nb\n"), '\n');
    let got: Vec<String> = pieces.iter().map(text).collect();
    assert_eq!(got, vec!["a", "", "b", ""]);
}

#[test]
fn split_whitespace_matches_std() {
    let s = " one  two\tthree ";
    let got: Vec<String> = split_whitespace(&chars_of(s)).iter().map(text).collect();
    let expected: Vec<String> = s.split_whitespace().map(|w| w.to_string()).collect();
    assert_eq!(got, expected);
}

#[test]
fn join_strings_matches_std() {
    let parts = vec!["a".to_string(), "b".to_string(), "c".to_string()];
    assert_eq!(join_strings(&parts, ", "), "a, b, c");
    assert_eq!(join_strings(&vec!["x".to_string()], ", "), "x");
    assert_eq!(join_strings(&Vec::new(), ", "), "");
}

#[test]
fn trim_char_removes_repeats_at_both_ends() {
    assert_eq!(text(&trim_char(&chars_of("\"\"value\""), '"')), "value");
    assert_eq!(text(&trim_char(&chars_of("'a'b'"), '\'')), "a'b");
}

#[test]
fn decimals_match_to_string() {
    for n in [0u64, 7, 10, 1234567890, u64::MAX] {
        assert_eq!(text(&u64_decimal(n)), n.to_string());
    }
    for n in [0i64, -1, 42, i64::MIN, i64::MAX] {
        assert_eq!(text(&i64_decimal(n)), n.to_string());
    }
    assert_eq!(text(&u128_decimal(u128::MAX)), u128::MAX.to_string());
}

#[test]
fn utf8_matches_std() {
    for c in ['a', 'é', '€', '😀'] {
        let mut buf = [0u8; 4];
        assert_eq!(utf8_bytes(c), c.encode_utf8(&mut buf).as_bytes().to_vec());
    }
    assert_eq!(utf8_len_of(&chars_of("aé€😀")), "aé€😀".len() as u128);
}

#[test]
fn string_from_chars_round_trip() {
    assert_eq!(string_from_chars(&chars_of("héllo")), "héllo");
}
