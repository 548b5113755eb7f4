use peck::atspi::{Element, ObjectRef, Role, StateSet, BUTTON};
use peck::geometry::PhysicalRect;
use peck::hints::short::nth_label;
use peck::hints::typing::{matching, narrow, Narrowed};
use peck::hints::{assign, uniform, HintStyle, Labeler, ShortLabeler, Target, ALPHABET};

fn dummy_targets(n: usize) -> Vec<Target<'static>> {
    (0..n)
        .map(|_| Target {
            name: "",
            role: Role::from_code(BUTTON).unwrap(),
            rect: PhysicalRect { x: 0, y: 0, w: 1, h: 1 },
        })
        .collect()
}

fn check_invariants(labeler: &ShortLabeler, n: usize) -> Vec<String> {
    let labels = labeler.labels(&dummy_targets(n));
    assert_eq!(labels.len(), n);
    for l in &labels {
        assert!(!l.is_empty());
    }
    for (i, a) in labels.iter().enumerate() {
        for (j, b) in labels.iter().enumerate() {
            if i != j {
                assert!(!b.starts_with(a.as_str()), "{a:?} prefixes {b:?}");
            }
        }
    }
    labels
}

fn element(name: &str) -> Element {
    Element {
        object: ObjectRef { name: None, path: format!("/{name}") },
        role: Role::from_code(BUTTON).unwrap(),
        name: name.to_string(),
        states: StateSet { bits: 0 },
    }
}

fn at(x: i32, y: i32, w: i32, h: i32) -> PhysicalRect {
    PhysicalRect { x, y, w, h }
}

#[test]
fn hint_style_round_trips_through_display() {
    for s in HintStyle::value_variants() {
        assert_eq!(HintStyle::from_str(&s.to_string(), false), Ok(s));
    }
}

#[test]
fn single_width_until_alphabet_exhausted() {
    let labels = uniform::generate(uniform::ALPHABET.len());
    assert!(labels.iter().all(|l| l.len() == 1));
    assert_eq!(labels[0], "s");
    let mut uniq = labels.clone();
    uniq.sort();
    uniq.dedup();
    assert_eq!(uniq.len(), labels.len(), "all labels should be unique");
}

#[test]
fn widens_uniformly_when_overflowing() {
    let labels = uniform::generate(uniform::ALPHABET.len() + 1);
    assert!(labels.iter().all(|l| l.len() == 2));
    // Prefix-free: no label is a prefix of another (guaranteed by uniform width).
    let mut uniq = labels.clone();
    uniq.sort();
    uniq.dedup();
    assert_eq!(uniq.len(), labels.len());
}

#[test]
fn matches_uniform_until_alphabet_exhausted() {
    let labels = check_invariants(&ShortLabeler, ALPHABET.len());
    assert!(labels.iter().all(|l| l.len() == 1));
    assert_eq!(labels[0].as_bytes(), &ALPHABET[..1]);
}

#[test]
fn demotes_minimally_when_overflowing() {
    // One over the alphabet: exactly one single-char label is sacrificed
    // (the easiest char becomes the prefix of the two two-char labels).
    let labels = check_invariants(&ShortLabeler, ALPHABET.len() + 1);
    let ones = labels.iter().filter(|l| l.len() == 1).count();
    assert_eq!(ones, ALPHABET.len() - 1);
    assert_eq!(
        labels[0].as_bytes(),
        &ALPHABET[1..2],
        "first surviving single-char label"
    );
    let demoted = ALPHABET[0] as char;
    assert!(labels[ones..].iter().all(|l| l.starts_with(demoted)));
}

#[test]
fn keeps_short_labels_for_high_priority_targets() {
    let labels = check_invariants(&ShortLabeler, 100);
    // Lengths are non-decreasing: rank 0 gets the cheapest code.
    assert!(labels.windows(2).all(|w| w[0].len() <= w[1].len()));
    assert_eq!(labels[0].len(), 1);
}

#[test]
fn prefix_free_across_sizes() {
    let b = ALPHABET.len();
    // Boundaries of the skip formula and of each label-length tier.
    for n in [
        1,
        2,
        b,
        b + 1,
        2 * b,
        100,
        b * b - 1,
        b * b,
        b * b + 1,
        1500,
    ] {
        check_invariants(&ShortLabeler, n);
    }
}

#[test]
fn alphabets_spell_their_letters() {
    assert_eq!(&ALPHABET, b"hjklasdfgyuiopqwertnmzxcvb");
    assert_eq!(&uniform::ALPHABET, b"sadfjklewcmpgh");
}

#[test]
fn labels_are_enumerated_by_length_and_then_by_letters() {
    let labels: Vec<String> = [0, 1, 25, 26, 27, 51, 52, 701, 702].iter().map(|i| nth_label(*i)).collect();
    assert_eq!(labels, ["h", "j", "b", "hh", "hj", "hb", "jh", "bb", "hhh"]);
}

#[test]
fn style_names_are_exact_unless_case_is_ignored() {
    assert_eq!(HintStyle::default(), HintStyle::Short);
    assert_eq!(HintStyle::from_str("SHORT", true), Ok(HintStyle::Short));
    assert_eq!(HintStyle::from_str("SHORT", false), Err("invalid variant: SHORT".to_string()));
    assert_eq!(HintStyle::from_str("", false), Err("invalid variant: ".to_string()));
    assert_eq!(HintStyle::Short.as_str(), "short");
}

#[test]
fn assignment_keeps_the_order_of_the_tree() {
    let located = vec![
        (element("one"), at(5, 5, 1, 1)),
        (element("two"), at(0, 0, 100, 100)),
        (element("three"), at(9, 9, 2, 2)),
    ];
    let hints = assign(&located, HintStyle::Short);
    let got: Vec<(&str, &str)> =
        hints.iter().map(|h| (h.label.as_str(), h.element.name.as_str())).collect();
    assert_eq!(got, [("h", "one"), ("j", "two"), ("k", "three")]);
    assert_eq!(hints[1].rect, at(0, 0, 100, 100));
}

#[test]
fn prominent_targets_get_the_easiest_uniform_labels() {
    let located = vec![
        (element("small"), at(0, 0, 2, 2)),
        (element("lower"), at(0, 9, 10, 10)),
        (element("right"), at(9, 3, 10, 10)),
        (element("left"), at(1, 3, 10, 10)),
        (element("negative"), at(0, 0, -50, 50)),
        (element("again"), at(1, 3, 10, 10)),
    ];
    let hints = uniform::assign(&located);
    let got: Vec<(&str, &str)> =
        hints.iter().map(|h| (h.label.as_str(), h.element.name.as_str())).collect();
    assert_eq!(
        got,
        [("s", "left"), ("a", "again"), ("d", "right"), ("f", "lower"), ("j", "small"), ("k", "negative")]
    );
    assert_eq!(uniform::priority(&at(0, 0, i32::MAX, i32::MAX)), 4611686014132420609);
    assert_eq!(uniform::priority(&at(0, 0, -1, 7)), 0);
}

#[test]
fn uniform_labels_count_in_the_alphabet() {
    let labels = uniform::generate(197);
    assert_eq!(labels[0], "sss");
    assert_eq!(labels[1], "ssa");
    assert_eq!(labels[14], "sas");
    assert_eq!(labels[196], "ass");
    assert!(uniform::generate(0).is_empty());
    assert_eq!(uniform::generate(196)[195], "hh");
}

#[test]
fn every_label_can_be_typed() {
    let located: Vec<(Element, PhysicalRect)> =
        (0..40).map(|i| (element(&format!("e{i}")), at(i, i, 1, 1))).collect();
    let hints = assign(&located, HintStyle::Short);
    for (i, hint) in hints.iter().enumerate() {
        let mut typed = String::new();
        let mut selected = None;
        for c in hint.label.chars() {
            match narrow(&hints, &typed, c.to_ascii_uppercase()) {
                Narrowed::Ignored => panic!("{:?} is a label", hint.label),
                Narrowed::Selected(k) => selected = Some(k),
                Narrowed::Prefix(p) => typed = p,
            }
        }
        assert_eq!(selected, Some(i));
    }
}

#[test]
fn narrowing_tells_none_one_and_several_apart() {
    let located: Vec<(Element, PhysicalRect)> =
        (0..27).map(|i| (element("e"), at(i, i, 1, 1))).collect();
    let hints = assign(&located, HintStyle::Short);
    let typed = String::new();
    assert!(matches!(narrow(&hints, &typed, 'j'), Narrowed::Selected(0)));
    match narrow(&hints, &typed, 'h') {
        Narrowed::Prefix(p) => {
            assert_eq!(p, "h");
            assert_eq!(matching(&hints, &p), [25, 26]);
            assert!(matches!(narrow(&hints, &p, 'J'), Narrowed::Selected(26)));
            assert!(matches!(narrow(&hints, &p, 'k'), Narrowed::Ignored));
        }
        other => panic!("two labels start with it: {other:?}"),
    }
    assert!(matches!(narrow(&hints, &typed, '1'), Narrowed::Ignored));
}

#[test]
fn uniform_labels_ascend_and_ties_keep_their_order() {
    let place = |s: &String| -> Vec<usize> {
        s.bytes().map(|b| uniform::ALPHABET.iter().position(|&a| a == b).unwrap()).collect()
    };
    let labels = uniform::generate(300);
    for pair in labels.windows(2) {
        assert!(place(&pair[0]) < place(&pair[1]));
    }
    let located: Vec<(Element, PhysicalRect)> =
        ["b", "a", "c"].iter().map(|name| (element(name), at(1, 2, 3, 4))).collect();
    let names: Vec<String> = uniform::assign(&located).iter().map(|h| h.element.name.clone()).collect();
    assert_eq!(names, ["b", "a", "c"]);
}
