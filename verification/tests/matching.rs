use nucleo_matcher::chars::{normalize, to_lower_case};
use peck::ui::matching::{
    can_score, fit, letter_of, letters_of, words_of, Letter, Word, LARGEST_TABLE, LONGEST_NEEDLE,
    LONGEST_QUERY, LONGEST_ROW,
};
use peck::ui::panel::{Effect, Event, Item, PanelCore};

fn fits(query: &str, text: &str) -> bool {
    can_score(&words_of(query), text)
}

fn item(text: &str) -> Item {
    Item { label: "zz".into(), center: (0, 0), text: text.into() }
}

fn needles(query: &str) -> Vec<(bool, String, bool)> {
    words_of(query)
        .iter()
        .map(|w| (w.fuzzy, w.needle.iter().collect(), w.variant))
        .collect()
}

#[test]
fn letters_are_those_of_the_matcher() {
    for c in (0..=0x10ffffu32).filter_map(char::from_u32) {
        let kept = if c.is_lowercase() { c } else { to_lower_case(c) };
        let expected = Letter { plain: to_lower_case(normalize(c)), folded: to_lower_case(c), kept };
        assert_eq!(letter_of(c), expected, "{:x}", c as u32);
    }
    assert_eq!(letter_of('É'), Letter { plain: 'e', folded: 'é', kept: 'é' });
    assert_eq!(letter_of('ſ'), Letter { plain: 's', folded: 's', kept: 'ſ' });
    assert_eq!(letter_of('ς'), Letter { plain: 'σ', folded: 'σ', kept: 'ς' });
}

#[test]
fn words_are_those_of_the_matcher() {
    assert_eq!(
        needles("Sé ſ !x ^y 'z w$ \\^É a\\ b"),
        [
            (true, "sé".to_string(), true),
            (true, "s".to_string(), false),
            (false, "x".to_string(), false),
            (false, "y".to_string(), false),
            (false, "z".to_string(), false),
            (false, "w".to_string(), false),
            (true, "^é".to_string(), true),
            (true, "a b".to_string(), false),
        ]
    );
    assert!(needles("  ").is_empty());
    assert_eq!(needles("æσ"), [(true, "æσ".to_string(), false)]);
    // Only the first character of each cluster counts.
    assert_eq!(needles("se\u{301}"), [(true, "se".to_string(), false)]);
}

#[test]
fn texts_are_those_of_the_matcher() {
    let (ascii, letters) = letters_of("aB");
    assert!(ascii);
    assert_eq!(letters, [letter_of('a'), letter_of('B')]);
    let (ascii, letters) = letters_of("Éb\r\n");
    assert!(!ascii);
    assert_eq!(letters, [letter_of('É'), letter_of('b'), letter_of('\r')]);
    let (ascii, letters) = letters_of("e\u{301}");
    assert!(ascii);
    assert_eq!(letters.len(), 3);
}

#[test]
fn long_needles_must_not_be_found() {
    let (word, text) = ("x".repeat(LONGEST_NEEDLE), "x".repeat(LONGEST_NEEDLE + 1));
    assert!(fits(&word, &text));
    assert!(fits(&text, &word));
    assert!(!fits(&text, &text));
    assert!(!fits(&text.to_uppercase(), &text));
    assert!(!fits(&format!("y {text}"), &format!("-{text}-")));
    assert!(fits(&text, &"y".repeat(LONGEST_NEEDLE + 1)));
    assert!(fits(&format!("{word} {word}"), &text));
    // An escaped space is part of the word.
    assert!(!fits(&format!("{word}\\ {word}"), &format!("{word} {word}")));
    assert!(fits(&format!("{word}\\ {word}"), &text));
    // Characters count, not bytes.
    assert!(fits(&"中".repeat(LONGEST_NEEDLE), &"中".repeat(LONGEST_NEEDLE)));
    assert!(!fits(&"中".repeat(LONGEST_NEEDLE + 1), &"中".repeat(LONGEST_NEEDLE + 1)));
    assert!(fits("", ""));
    assert_eq!(LONGEST_QUERY, (u32::MAX / 36) as usize);
}

#[test]
fn clashes_are_about_the_first_letter() {
    for query in ["sé", "Sé", "ſé", "x sé", "sé x", "s\u{e9}"] {
        assert!(!fits(query, "ſésé"), "{query}");
        assert!(fits(query, "sésé"), "{query}");
    }
    // Not searched fuzzily, not beginning alike, or compared with normalization.
    for query in ["'sé", "!sé", "^sé", "sé$", "és", "s é", "xsé", "σέ", "s", "se", "ſ", "ſe", "sæ"] {
        assert!(fits(query, "ſésé"), "{query}");
    }
    // Not found behind the letter, or found before it.
    for text in ["ſ", "ſé", "ſs", "ſxyz", "ſéé", "séſ", "sésſé"] {
        assert!(fits("sé", text), "{text}");
    }
    assert!(!fits("μé", "µ μé"));
    assert!(fits("μé", "10 µm é"));
    assert!(!fits("σå", "ςσå"));
    assert!(fits("σa", "ςσå"));
}

#[test]
fn clashes_need_a_table() {
    let far = |n: usize| format!("ſ{}sé", "-".repeat(n));
    let most = LARGEST_TABLE / 2;
    assert!(!fits("sé", &far(most - 3)));
    assert!(fits("sé", &far(most - 2)));
    let long = |n: usize| format!("s{}é", "-".repeat(n - 2));
    assert!(fits(&long(LONGEST_ROW + 1), &format!("ſ{}", long(LONGEST_ROW + 1))));
}

#[test]
fn limits_are_told_from_words_and_letters() {
    let letter = |plain: char, folded: char, kept: char| Letter { plain, folded, kept };
    let word = |fuzzy: bool, needle: &str, variant: bool| Word {
        fuzzy,
        needle: needle.chars().collect(),
        variant,
    };
    let letters = vec![letter('a', 'a', 'A'), letter('a', 'a', 'a'), letter('b', 'b', 'b')];
    assert!(!fit(&vec![word(true, "ab", true)], false, &letters));
    assert!(fit(&vec![word(true, "ab", true)], true, &letters));
    assert!(fit(&vec![word(true, "ab", false)], false, &letters));
    assert!(fit(&vec![word(false, "ab", true)], false, &letters));
    assert!(fit(&vec![word(true, "a", true), word(true, "ba", true)], false, &letters));
    assert!(!fit(&vec![word(true, "a", true), word(true, "ab", true)], false, &letters));
    assert!(fit(&Vec::new(), false, &letters));
}

/// All strings over an alphabet, up to a length.
fn strings(alphabet: &str, longest: usize) -> Vec<String> {
    let mut all = vec![String::new()];
    let mut last = all.clone();
    for _ in 0..longest {
        let mut next: Vec<String> = Vec::new();
        for s in &last {
            for c in alphabet.chars() {
                next.push(format!("{s}{c}"));
            }
        }
        all.extend(next.iter().cloned());
        last = next;
    }
    all
}

#[test]
fn what_fits_is_scored_without_fault() {
    let texts = strings("sſéσς", 4);
    let mut refused: usize = 0;
    for query in strings("sſéσ\\", 2) {
        let words = words_of(&query);
        let (good, bad): (Vec<&String>, Vec<&String>) =
            texts.iter().partition(|t| can_score(&words, t));
        refused += bad.len();
        let mut core = PanelCore::new(good.iter().map(|t| item(t)).collect());
        core.set_query(query.clone());
        assert_eq!(core.query, query);
        if let Some(text) = bad.first() {
            assert_eq!(core.offer(Event::NewHints(vec![item(text)])), None);
        } else {
            assert_eq!(core.offer(Event::NewHints(Vec::new())), Some(vec![Effect::Redraw]));
        }
    }
    assert!(refused > 0);
}

#[test]
fn a_long_s_finds_itself() {
    let mut core = PanelCore::new(vec![item("ſ"), item("x")]);
    assert_eq!(core.offer(Event::Query("ſ".into())), Some(vec![Effect::Redraw]));
    assert_eq!(core.fuzzy_matches, [0]);
    assert_eq!(core.offer(Event::NewHints(vec![item("x"), item("aſ")])), Some(vec![Effect::Redraw]));
    assert_eq!((core.fuzzy_matches.as_slice(), core.selected()), ([1].as_slice(), Some(1)));
}
