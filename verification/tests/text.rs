use kondor::text::{chars_of, contains, is_white_space, push_decimal, trim};

#[test]
fn white_space_is_what_the_standard_library_says() {
    for u in 0..=0x10ffffu32 {
        if let Some(c) = char::from_u32(u) {
            assert_eq!(is_white_space(c), c.is_whitespace(), "{u:#x}");
        }
    }
}

#[test]
fn texts_are_trimmed_at_both_ends() {
    for text in ["", " ", "a", " a ", "\t a b \n", "\u{3000}x\u{85}", "no space", "  \u{a0} "] {
        assert_eq!(trim(text), text.trim());
    }
}

#[test]
fn substrings_are_found() {
    let texts = ["", "a", "aab", "abcabd", "ünïcödé", "aaaa"];
    let needles = ["", "a", "ab", "abd", "öd", "aaaaa", "x", "b"];
    for text in texts {
        for needle in needles {
            assert_eq!(contains(text, needle), text.contains(needle), "{text} {needle}");
        }
    }
}

#[test]
fn numbers_are_written_in_decimal() {
    for n in [0, 1, 9, 10, 11, 99, 100, 1_000_000, u64::MAX] {
        let mut text = "n=".to_string();
        push_decimal(&mut text, n);
        assert_eq!(text, format!("n={n}"));
    }
}

#[test]
fn characters_are_listed() {
    assert_eq!(chars_of("aé…"), vec!['a', 'é', '…']);
    assert!(chars_of("").is_empty());
}
