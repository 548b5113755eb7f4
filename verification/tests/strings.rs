use peck::text::{
    chars_of, contains, is_alphanumeric, is_white_space, push_decimal, split_chars, split_words,
    starts_with, string_of, to_ascii_lowercase, trim,
};

#[test]
fn white_space_is_that_of_unicode() {
    for n in 0..=0x10ffffu32 {
        if let Some(c) = char::from_u32(n) {
            assert_eq!(is_white_space(c), c.is_whitespace(), "{n:x}");
        }
    }
}

#[test]
fn ascii_classes_are_those_of_std() {
    for n in 0..0x500u32 {
        let c = char::from_u32(n).unwrap();
        assert_eq!(is_alphanumeric(c), c.is_ascii_alphanumeric());
        assert_eq!(to_ascii_lowercase(&c.to_string()), c.to_ascii_lowercase().to_string());
    }
}

#[test]
fn splitting_and_trimming_are_those_of_std() {
    for s in ["", " ", "a", " a  b ", "a.b..c.", ".", "\u{2003}x\u{a0}y\n", "éß ∂"] {
        let chars = chars_of(s);
        assert_eq!(string_of(&chars), s);
        let words: Vec<String> = split_words(&chars).iter().map(|w| string_of(w)).collect();
        assert_eq!(words, s.split_whitespace().collect::<Vec<_>>());
        let parts: Vec<String> = split_chars(&chars, '.').iter().map(|w| string_of(w)).collect();
        assert_eq!(parts, s.split('.').collect::<Vec<_>>());
        assert_eq!(string_of(&trim(&chars)), s.trim());
    }
}

#[test]
fn numbers_are_written_in_decimal() {
    for n in [0, 7, 10, -1, 4096, i64::MAX, i64::MIN] {
        let mut s = "n=".to_string();
        push_decimal(&mut s, n);
        assert_eq!(s, format!("n={n}"));
    }
}

#[test]
fn searching_is_that_of_std() {
    let texts = ["", "a", "ab", "aab", "abab", "baé", "éß", "ß", "é"];
    for s in texts {
        for part in texts {
            assert_eq!(starts_with(s, part), s.starts_with(part), "{s:?} {part:?}");
            assert_eq!(contains(s, part), s.contains(part), "{s:?} {part:?}");
        }
    }
}
