use glossary_lookup::text::{chars_of, contains, is_space, matches_at, starts_with, trim};

#[test]
fn trim_removes_surrounding_whitespace() {
    assert_eq!(trim(" Stress "), "Stress");
    assert_eq!(trim("\t\n two words \r\n"), "two words");
    assert_eq!(trim("inner  space"), "inner  space");
    assert_eq!(trim(""), "");
    assert_eq!(trim(" \u{a0}\u{3000} "), "");
    assert_eq!(trim("\u{2003}é\u{205f}"), "é");
}

#[test]
fn trim_agrees_with_std() {
    let texts = ["", " ", "a", " a", "a ", "  a b  ", "\u{85}x\u{1680}", "\u{200b}x", "\u{feff} y "];
    for text in texts {
        assert_eq!(trim(text), text.trim());
    }
}

#[test]
fn whitespace_is_what_unicode_calls_white_space() {
    let mut n: u32 = 0;
    while n <= 0x10ffff {
        if let Some(c) = char::from_u32(n) {
            assert_eq!(is_space(c), c.is_whitespace(), "U+{:04X}", n);
        }
        n += 1;
    }
}

#[test]
fn starts_with_and_contains_agree_with_std() {
    let texts = [
        "",
        "a",
        "are we missing",
        "are we missing a definition?",
        "Are we missing",
        " are we missing",
        "are we missin",
        "Anxiety Glossary Definition",
        "glossary",
        "Glossar",
        "xGlossaryx",
        "GlossGlossary",
        "日本語 Glossary",
    ];
    let patterns = ["", "a", "are we missing", "Glossary", "語"];
    for text in texts {
        for pattern in patterns {
            assert_eq!(starts_with(text, pattern), text.starts_with(pattern));
            assert_eq!(contains(text, pattern), text.contains(pattern));
        }
    }
}

#[test]
fn chars_of_counts_characters_not_bytes() {
    assert_eq!(chars_of("héllo"), vec!['h', 'é', 'l', 'l', 'o']);
    assert_eq!(chars_of(""), Vec::<char>::new());
}

#[test]
fn matches_at_compares_at_the_offset() {
    let text = chars_of("abcabc");
    let pattern = chars_of("bc");
    assert!(!matches_at(&pattern, &text, 0));
    assert!(matches_at(&pattern, &text, 1));
    assert!(matches_at(&pattern, &text, 4));
    assert!(matches_at(&chars_of(""), &text, 6));
    assert!(!matches_at(&chars_of(""), &text, 7));
    assert!(!matches_at(&pattern, &text, 5));
    assert!(!matches_at(&text, &pattern, 0));
    assert!(!matches_at(&pattern, &text, usize::MAX));
}
