use dbpedia_abstracts::text::{
    behind_last, chars_of, contains, ends_with, is_white_space, same_text, trim,
};

#[test]
fn white_space_is_what_unicode_says() {
    for code in 0..=0x10ffff {
        if let Some(c) = char::from_u32(code) {
            assert_eq!(is_white_space(c), c.is_whitespace(), "{:?}", c);
        }
    }
}

#[test]
fn texts_are_trimmed_at_both_ends() {
    for text in ["", " ", "a", " a", "a ", "\t a b \u{3000}\n", "\u{a0}\u{e9}\u{2003}", "\u{200b}a"] {
        assert_eq!(trim(text), text.trim());
        assert_eq!(trim(&trim(text)), trim(text));
    }
}

#[test]
fn endings_are_compared() {
    let texts = ["", "a", "b", "ab", "ba", "aab", "\u{e9}", "a\u{e9}", "abstract"];
    for text in texts {
        for ending in texts {
            assert_eq!(ends_with(text, ending), text.ends_with(ending));
            assert_eq!(same_text(text, ending), text == ending);
        }
    }
}

#[test]
fn parts_are_found() {
    let texts = ["", "a", "b", "ab", "aab", "abab", "aaba", "x\u{e9}y", "\u{e9}"];
    for text in texts {
        for part in texts {
            assert_eq!(contains(text, part), text.contains(part));
        }
    }
}

#[test]
fn the_rest_behind_the_last_character_is_found() {
    assert_eq!(behind_last("a/b/c", '/').unwrap(), "c");
    assert_eq!(behind_last("a/b/", '/').unwrap(), "");
    assert_eq!(behind_last("/\u{e9}\u{1f980}", '/').unwrap(), "\u{e9}\u{1f980}");
    assert!(behind_last("abc", '/').is_none());
    assert!(behind_last("", '/').is_none());
}

#[test]
fn characters_are_listed_in_order() {
    assert_eq!(chars_of("a\u{e9}\u{1f980}"), vec!['a', '\u{e9}', '\u{1f980}']);
}
