use peck::atspi::{Element, ObjectRef, Role, StateSet, BUTTON};
use peck::geometry::PhysicalRect;
use peck::hints::short::nth_label;
use peck::hints::Hint;
use peck::overlay::canvas::{buffer_len, Canvas};
use peck::overlay::fonts::{fallback_families, font_candidates};
use peck::overlay::text::{blend, Glyph, GlyphAtlas};
use peck::overlay::{
    draw, label_chars, label_fits, overlaps, place_labels, Key, Overlay, LABEL_BG, LABEL_DIM,
    LABEL_FG,
};
use peck::ui::hints_window::{
    chips, chosen, handle_gesture_key, outline, Chip, GestureKey, KeyOutcome, State,
};

fn hint(label: &str, x: i32, y: i32) -> Hint {
    Hint {
        label: label.to_string(),
        rect: PhysicalRect { x, y, w: 10, h: 10 },
        element: Element {
            object: ObjectRef { name: None, path: "/".to_string() },
            role: Role::from_code(BUTTON).unwrap(),
            name: label.to_string(),
            states: StateSet { bits: 0 },
        },
    }
}

/// A one-pixel glyph for `a` and a two-by-two one for `b`.
fn atlas() -> GlyphAtlas {
    let a = Glyph { xmin: 1, ymin: 0, width: 1, height: 1, coverage: vec![255] };
    let b = Glyph { xmin: 0, ymin: -1, width: 2, height: 2, coverage: vec![255, 0, 0, 51] };
    GlyphAtlas::new(5, 4, vec![('a', a), ('b', b)], &vec![3, 2])
}

fn pixel(c: &Canvas, x: usize, y: usize) -> [u8; 4] {
    let i = (y * c.width as usize + x) * 4;
    [c.buf[i], c.buf[i + 1], c.buf[i + 2], c.buf[i + 3]]
}

const NOTHING: [u8; 4] = [0, 0, 0, 0];

#[test]
fn pixels_are_clipped() {
    let mut c = Canvas::new(3, 2);
    assert_eq!(c.buf, [0; 24]);
    let red = [1, 2, 3, 4];
    c.put(2, 1, red);
    for (x, y) in [(-1, 0), (0, -1), (3, 0), (0, 2), (i32::MAX, i32::MIN)] {
        c.put(x, y, red);
    }
    for y in 0..2 {
        for x in 0..3 {
            assert_eq!(pixel(&c, x, y), if (x, y) == (2, 1) { red } else { NOTHING });
        }
    }
}

#[test]
fn rectangles_and_frames_are_painted() {
    let ink = [9, 9, 9, 255];
    let mut c = Canvas::new(6, 5);
    c.fill(-1, 3, 3, 9, ink);
    for y in 0..5 {
        for x in 0..6 {
            assert_eq!(pixel(&c, x, y), if x < 2 && y >= 3 { ink } else { NOTHING });
        }
    }
    let mut c = Canvas::new(6, 5);
    c.border(1, 1, 4, 3, 1, ink);
    for y in 0..5usize {
        for x in 0..6usize {
            let outer = (1..5).contains(&x) && (1..4).contains(&y);
            let inner = (2..4).contains(&x) && y == 2;
            assert_eq!(pixel(&c, x, y), if outer && !inner { ink } else { NOTHING });
        }
    }
    let mut c = Canvas::new(2, 2);
    c.fill(0, 0, -1, 2, ink);
    assert_eq!(c.buf, [0; 16]);
}

#[test]
fn buffers_have_four_bytes_per_pixel() {
    assert_eq!(buffer_len(1920, 1080), Some(8294400));
    assert_eq!(buffer_len(0, 5), Some(0));
    assert_eq!(buffer_len(32768, 32768), None);
    assert_eq!(buffer_len(u32::MAX, u32::MAX), None);
}

#[test]
fn colors_are_blended() {
    let (bg, fg) = ([0, 200, 255, 255], [16, 16, 16, 255]);
    assert_eq!(blend(bg, fg, 0), [0, 200, 255, 255]);
    assert_eq!(blend(bg, fg, 255), [16, 16, 16, 255]);
    assert_eq!(blend(bg, fg, 51), [3, 163, 207, 255]);
    assert_eq!(blend([1, 2, 3, 0], [1, 2, 3, 0], 7), [1, 2, 3, 255]);
}

#[test]
fn text_is_measured_and_drawn() {
    let atlas = atlas();
    assert!(atlas.is_whole());
    assert_eq!(atlas.measure("abc"), (9, 5));
    let mut c = Canvas::new(12, 8);
    let (ink, bg) = ([10, 20, 30, 255], [0, 0, 0, 255]);
    atlas.draw("?ab", 0, 1, ink, bg, &mut c);
    // The unknown character takes its place; `a` stands on the baseline.
    for y in 0..8 {
        for x in 0..12 {
            let expected = match (x, y) {
                (4, 4) => ink,
                (6, 4) => ink,
                (7, 5) => [2, 4, 6, 255],
                _ => NOTHING,
            };
            assert_eq!(pixel(&c, x, y), expected, "{x} {y}");
        }
    }
}

#[test]
fn the_last_glyph_of_a_character_counts() {
    let small = Glyph { xmin: 0, ymin: 0, width: 0, height: 0, coverage: vec![] };
    let dot = Glyph { xmin: 0, ymin: 0, width: 1, height: 1, coverage: vec![255] };
    let atlas = GlyphAtlas::new(2, 1, vec![('a', small), ('a', dot)], &vec![1, 1]);
    let mut c = Canvas::new(1, 1);
    atlas.draw("a", 0, 0, [1, 2, 3, 255], [0, 0, 0, 255], &mut c);
    assert_eq!(c.buf, [1, 2, 3, 255]);
    let torn = Glyph { xmin: 0, ymin: 0, width: 2, height: 1, coverage: vec![255] };
    assert!(!GlyphAtlas::new(2, 1, vec![('a', torn)], &vec![1]).is_whole());
}

#[test]
fn boxes_overlap_by_more_than_an_edge() {
    assert!(overlaps((0, 0, 4, 4), (3, 3, 4, 4)));
    assert!(!overlaps((0, 0, 4, 4), (4, 0, 4, 4)));
    assert!(!overlaps((0, 0, 4, 4), (0, 4, 4, 4)));
    assert!(!overlaps((i32::MAX, 0, i32::MAX, 1), (i32::MIN, 0, 5, 1)));
}

#[test]
fn labels_are_clamped_and_nudged() {
    let atlas = atlas();
    // Boxes are 11 wide and 13 high.
    let hints = vec![
        hint("a", -5, 3),
        hint("b", 2, 5),
        hint("a", 500, 500),
        hint("b", 500, 490),
    ];
    assert_eq!(
        place_labels(&hints, "", &atlas, (100, 60)),
        [
            (0, (0, 3, 11, 13)),
            (1, (2, 18, 11, 13)),
            (2, (89, 47, 11, 13)),
            (3, (89, 47, 11, 13)),
        ]
    );
    assert_eq!(place_labels(&hints, "b", &atlas, (100, 60)).len(), 2);
    assert_eq!(place_labels(&hints[..1], "", &atlas, (5, 5)), [(0, (0, 0, 11, 13))]);
    assert!(label_fits(&atlas, "ab", (100, 60)));
    assert!(!label_fits(&atlas, "ab", (u32::MAX, 60)));
}

#[test]
fn labels_are_nudged_sixteen_times_at_most() {
    let atlas = atlas();
    let hints: Vec<Hint> = (0..20).map(|_| hint("a", 0, 0)).collect();
    let places = place_labels(&hints, "", &atlas, (100, 10000));
    let rows: Vec<i32> = places.iter().map(|p| p.1 .1 / 13).collect();
    let mut expected: Vec<i32> = (0..17).collect();
    expected.extend([16, 16, 16]);
    assert_eq!(rows, expected);
}

#[test]
fn typed_prefixes_are_muted() {
    let atlas = atlas();
    let hints = vec![hint("aa", 0, 0), hint("b", 30, 0)];
    let mut c = Canvas::new(60, 20);
    assert_eq!(draw(&mut c, &hints, "a", &atlas), [(0, (0, 0, 14, 13))]);
    assert_eq!(pixel(&c, 0, 0), LABEL_FG);
    assert_eq!(pixel(&c, 13, 12), LABEL_FG);
    assert_eq!(pixel(&c, 1, 1), LABEL_BG);
    assert_eq!(pixel(&c, 5, 7), LABEL_DIM);
    assert_eq!(pixel(&c, 8, 7), LABEL_FG);
    assert_eq!(pixel(&c, 14, 5), NOTHING);
    assert_eq!(pixel(&c, 31, 1), NOTHING);
}

#[test]
fn label_characters_are_sorted_and_distinct() {
    let hints = vec![hint("sad", 0, 0), hint("jaj", 0, 0), hint("", 0, 0)];
    assert_eq!(label_chars(&hints), ['a', 'd', 'j', 's']);
    assert!(label_chars(&[]).is_empty());
}

#[test]
fn fonts_are_tried_by_preference() {
    assert_eq!(
        fallback_families(),
        [
            "DejaVu Sans Mono",
            "Liberation Mono",
            "Noto Sans Mono",
            "Source Code Pro",
            "JetBrains Mono",
            "Hack",
            "Ubuntu Mono",
        ]
    );
    assert_eq!(
        font_candidates(&vec![None, Some(4), Some(1)], &vec![true, false, true]),
        [4, 1, 0, 2]
    );
    assert!(font_candidates(&Vec::new(), &Vec::new()).is_empty());
}

#[test]
fn overlay_keys_filter_and_select() {
    let mut o = Overlay::new(vec![hint("sa", 0, 0), hint("sd", 0, 0), hint("f", 0, 0)]);
    assert!(!o.handle_key(Key::BackSpace));
    assert!(!o.handle_key(Key::Text(String::new())));
    assert!(!o.handle_key(Key::Text("?".to_string())));
    assert!(o.handle_key(Key::Text("Sx".to_string())));
    assert_eq!(o.typed, "s");
    assert!(!o.finished());
    assert!(o.handle_key(Key::BackSpace));
    assert_eq!(o.typed, "");
    o.handle_key(Key::Text("s".to_string()));
    assert!(!o.handle_key(Key::Text("D".to_string())));
    assert!(o.finished());
    assert_eq!(o.selected, Some(1));
    assert_eq!(o.choice().unwrap().label, "sd");

    let mut cancelled = Overlay::new(vec![hint("f", 0, 0)]);
    assert!(!cancelled.handle_key(Key::Escape));
    assert!(cancelled.finished());
    assert!(cancelled.choice().is_none());
}

#[test]
fn the_overlay_is_drawn_when_first_configured() {
    let mut o = Overlay::new(Vec::new());
    assert!(o.configure((0, 7)));
    assert_eq!(o.logical, (1, 7));
    o.configured = true;
    assert!(!o.configure((3, 0)));
    assert_eq!(o.logical, (3, 1));
    o.closed = true;
    assert!(o.finished());
}

#[test]
fn gesture_keys_filter_and_select() {
    let mut s = State::new(vec![hint("sa", 0, 0), hint("sd", 0, 0), hint("f", 0, 0)]);
    assert_eq!(handle_gesture_key(&mut s, GestureKey::BackSpace), KeyOutcome::Pending);
    assert_eq!(handle_gesture_key(&mut s, GestureKey::Other), KeyOutcome::Pending);
    assert_eq!(handle_gesture_key(&mut s, GestureKey::Char('é')), KeyOutcome::Pending);
    assert_eq!(handle_gesture_key(&mut s, GestureKey::Char('z')), KeyOutcome::Pending);
    assert_eq!(handle_gesture_key(&mut s, GestureKey::Char('S')), KeyOutcome::Redraw);
    assert_eq!(s.typed, "s");
    assert_eq!(handle_gesture_key(&mut s, GestureKey::BackSpace), KeyOutcome::Redraw);
    assert_eq!(s.typed, "");
    assert_eq!(handle_gesture_key(&mut s, GestureKey::Char('f')), KeyOutcome::Finished(Some(2)));
    assert_eq!(chosen(&s, Some(2)).unwrap().label, "f");
    assert_eq!(handle_gesture_key(&mut s, GestureKey::Escape), KeyOutcome::Finished(None));
    assert!(chosen(&s, None).is_none());
}

#[test]
fn chips_follow_the_typed_prefix() {
    let mut s = State::new(vec![hint("sa", 1, 2), hint("f", 3, 4), hint("s", 5, 6)]);
    assert_eq!(chips(&s), [Chip::Shown { faded: 0, lit: false }; 3]);
    assert_eq!(outline(&s), None);
    s.typed = "s".to_string();
    s.hint_match = Some(2);
    s.selected = Some(2);
    assert_eq!(
        chips(&s),
        [
            Chip::Shown { faded: 1, lit: false },
            Chip::Hidden,
            Chip::Shown { faded: 1, lit: true },
        ]
    );
    assert_eq!(outline(&s), Some(PhysicalRect { x: 5, y: 6, w: 10, h: 10 }));
    s.selected = Some(9);
    assert_eq!(outline(&s), None);
    s.selected = Some(2);
    s.hidden = true;
    assert_eq!(chips(&s), [Chip::Hidden; 3]);
    assert_eq!(outline(&s), None);
}

#[test]
fn every_label_can_be_keyed_in() {
    let labels: Vec<String> = (2..32).map(nth_label).collect();
    let hints: Vec<Hint> = labels.iter().map(|l| hint(l, 0, 0)).collect();
    for (i, label) in labels.iter().enumerate() {
        let mut gesture = State::new(hints.clone());
        let mut overlay = Overlay::new(hints.clone());
        let mut last = KeyOutcome::Pending;
        for (k, c) in label.chars().enumerate() {
            assert_eq!(last, if k == 0 { KeyOutcome::Pending } else { KeyOutcome::Redraw });
            assert!(!overlay.finished());
            last = handle_gesture_key(&mut gesture, GestureKey::Char(c.to_ascii_uppercase()));
            overlay.handle_key(Key::Text(c.to_string()));
        }
        assert_eq!(last, KeyOutcome::Finished(Some(i)));
        assert_eq!((overlay.selected, overlay.finished()), (Some(i), true));
    }
}
