use peck::atspi::{Element, ObjectRef, Role, StateSet, LINK};
use peck::geometry::PhysicalRect;
use peck::hints::Hint;
use peck::ui::hints_window::State;
use peck::ui::panel::{CoreOutcome, Event, PanelCore, PanelKey};
use peck::ui::shell::{
    centers_fit, item_for, items_from, list_rows, mirror, panel_key, panel_outcome, released_key, sized_rows,
    status_text, KeyPress, Row,
};

fn hint(label: &str, name: &str) -> Hint {
    Hint {
        label: label.to_string(),
        rect: PhysicalRect { x: 4, y: 6, w: 10, h: 20 },
        element: Element {
            object: ObjectRef { name: None, path: "/".to_string() },
            role: Role::from_code(LINK).unwrap(),
            name: name.to_string(),
            states: StateSet { bits: 0 },
        },
    }
}

fn panel() -> (Vec<Hint>, PanelCore) {
    let hints = vec![hint("sa", "Save"), hint("sd", "Settings"), hint("f", "Close asset")];
    let core = PanelCore::new(items_from(&hints));
    (hints, core)
}

#[test]
fn items_are_searched_by_name_and_role() {
    let (hints, core) = panel();
    assert!(centers_fit(&hints));
    assert_eq!(core.items[0].label, "sa");
    assert_eq!(core.items[0].center, (9, 16));
    assert_eq!(core.items[1].text, "Settings Link");
    assert_eq!(item_for(&hints[2], "role").text, "Close asset role");
    let mut far = hint("x", "x");
    far.rect.x = i32::MAX;
    assert!(!centers_fit(&[far]));
}

#[test]
fn keys_are_told_apart() {
    let cases = [
        (KeyPress::Escape, false, PanelKey::Escape, true),
        (KeyPress::Return, false, PanelKey::Return { ctrl: false }, true),
        (KeyPress::Return, true, PanelKey::Return { ctrl: true }, true),
        (KeyPress::Up, false, PanelKey::Up, true),
        (KeyPress::Down, true, PanelKey::Down, true),
        (KeyPress::Letter('p'), true, PanelKey::Up, true),
        (KeyPress::Letter('n'), true, PanelKey::Down, true),
        (KeyPress::Letter('h'), true, PanelKey::ScrollLeft, true),
        (KeyPress::Letter('j'), true, PanelKey::ScrollDown, true),
        (KeyPress::Letter('k'), true, PanelKey::ScrollUp, true),
        (KeyPress::Letter('l'), true, PanelKey::ScrollRight, true),
        (KeyPress::Letter('l'), false, PanelKey::Other, false),
        (KeyPress::Letter('x'), true, PanelKey::Other, false),
        (KeyPress::Control, true, PanelKey::CtrlPressed, false),
        (KeyPress::Other, false, PanelKey::Other, false),
    ];
    for (press, ctrl, key, stop) in cases {
        assert_eq!(panel_key(press, ctrl), (key, stop));
    }
    assert_eq!(released_key(KeyPress::Control), Some(PanelKey::CtrlReleased));
    assert_eq!(released_key(KeyPress::Return), None);
}

#[test]
fn rows_are_sectioned() {
    let (_, mut core) = panel();
    let element = |index, typed_out| Row::Element { index, typed_out };
    assert_eq!(
        list_rows(&core),
        (vec![element(0, false), element(1, false), element(2, false)], Some(0))
    );
    core.on_event(Event::Query("s".into()));
    assert_eq!(
        list_rows(&core),
        (
            vec![Row::HintsHeader, element(0, false), element(1, false), Row::MatchesHeader, element(2, false)],
            Some(1)
        )
    );
    core.on_event(Event::Query("sd".into()));
    assert_eq!(list_rows(&core), (vec![Row::HintsHeader, element(1, true)], Some(1)));
    core.on_event(Event::Query("zzz".into()));
    assert_eq!(list_rows(&core), (vec![Row::NoMatchNote], None));
    core.on_event(Event::Key(PanelKey::ScrollDown));
    assert_eq!(list_rows(&core), (vec![Row::StaleNote], None));
    assert_eq!(list_rows(&PanelCore::new(Vec::new())), (vec![Row::EmptyNote], None));
}

#[test]
fn rows_without_elements_have_fixed_texts() {
    assert_eq!(Row::StaleNote.text(), Some("release ⌃ to re-scan"));
    assert_eq!(Row::EmptyNote.text(), Some("no accessible elements — ⌃hjkl scrolls"));
    assert_eq!(Row::NoMatchNote.text(), Some("no matches"));
    assert_eq!(Row::HintsHeader.text(), Some("hints"));
    assert_eq!(Row::MatchesHeader.text(), Some("matches"));
    assert_eq!(Row::Element { index: 0, typed_out: false }.text(), None);
}

#[test]
fn the_status_line_follows_the_core() {
    let (_, mut core) = panel();
    let legend = "↵ click · ⌃↵ right-click · ↵↵ double · ⌃ warp · ⌃hjkl scroll · esc";
    assert_eq!(status_text(&core), legend);
    core.on_event(Event::Key(PanelKey::ScrollDown));
    core.on_event(Event::Key(PanelKey::CtrlReleased));
    assert_eq!(status_text(&core), "re-scanning…");
    core.on_event(Event::NewHints(items_from(&[hint("f", "Close")])));
    assert_eq!(status_text(&core), legend);
    core.on_event(Event::Key(PanelKey::Return { ctrl: false }));
    assert_eq!(status_text(&core), "↵ again → double-click");
}

#[test]
fn the_overlay_mirrors_the_panel() {
    let (hints, mut core) = panel();
    let mut overlay = State::new(hints);
    core.on_event(Event::Query("SD".into()));
    mirror(&core, &mut overlay);
    assert_eq!(overlay.typed, "sd");
    assert_eq!(overlay.selected, Some(1));
    assert_eq!(overlay.hint_match, Some(1));
    assert!(!overlay.hidden);
    core.on_event(Event::Key(PanelKey::ScrollUp));
    mirror(&core, &mut overlay);
    assert_eq!((overlay.selected, overlay.hint_match, overlay.hidden), (None, None, true));
}

#[test]
fn outcomes_name_their_elements() {
    let (hints, _) = panel();
    let text = |o| panel_outcome(o, &hints).to_string();
    assert_eq!(
        text(CoreOutcome::Dismissed { scrolls: 3, warped: true }),
        "panel dismissed (scrolls: 3, warped: true)"
    );
    assert_eq!(
        text(CoreOutcome::Clicked { index: 1, at: (9, 16), double: true }),
        "panel: double-clicked Link \"Settings\" at (9, 16)"
    );
    assert_eq!(
        text(CoreOutcome::RightClicked { index: 2, at: (9, 16) }),
        "panel: right-clicked Link \"Close asset\" at (9, 16)"
    );
}

#[test]
fn panels_are_sized_for_ten_rows_at_most() {
    assert_eq!([0, 1, 9, 10, 11].map(sized_rows), [1, 1, 9, 10, 10]);
}
