use copycopy::text::{
    chars_of, contains, find, is_blank, lowered_chars_of, same, to_ascii_lower, trim, white_space,
};

#[test]
fn white_space_and_case_are_those_of_std() {
    for n in 0..=0x10ffff_u32 {
        if let Some(c) = char::from_u32(n) {
            assert_eq!(white_space(c), c.is_whitespace(), "{n:x}");
            assert_eq!(to_ascii_lower(c), c.to_ascii_lowercase(), "{n:x}");
        }
    }
}

#[test]
fn trimming_is_that_of_std() {
    for s in ["", " ", "a", " a b ", "\u{3000}\tあ\r\n", "\u{85}x\u{200b}", "x\u{2028}"] {
        assert_eq!(trim(s), s.trim());
        assert_eq!(is_blank(s), s.trim().is_empty());
    }
}

#[test]
fn search_is_that_of_std() {
    let texts = ["", "a", "ab", "aab", "abab", "あいあ", "xあ"];
    for hay in texts {
        for needle in texts {
            assert_eq!(
                contains(&chars_of(hay), &chars_of(needle)),
                hay.contains(needle),
                "{hay} {needle}"
            );
            assert_eq!(same(hay, needle), hay == needle);
        }
    }
    assert_eq!(find(&chars_of("abab"), &chars_of("ab"), 1), Some(2));
    assert_eq!(find(&chars_of("abab"), &chars_of("ab"), 3), None);
    assert_eq!(find(&chars_of("ab"), &[], 2), Some(2));
    assert_eq!(lowered_chars_of("AbÄ"), vec!['a', 'b', 'Ä']);
}
