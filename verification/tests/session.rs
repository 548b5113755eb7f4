use peck::atspi::{Element, ObjectRef, Role, StateSet, BUTTON, LINK};
use peck::geometry::PhysicalRect;
use peck::hints::{Hint, HintStyle};
use peck::pointer::Mode;
use peck::report::{coords_line, coords_row, tree_line, tree_row};
use peck::session::{
    begin_gesture, dispatch_pointed, dispatch_selected, dispatch_tried, located_or_empty,
    report_selected, subject, Activation, Dispatched, GestureStep, PanelEvent, PanelOutcome,
    PanelStep, PanelWait, Request,
};

fn element(role: u32, name: &str) -> Element {
    Element {
        object: ObjectRef { name: Some(":1.7".to_string()), path: "/org/a11y/7".to_string() },
        role: Role::from_code(role).unwrap(),
        name: name.to_string(),
        states: StateSet { bits: 0 },
    }
}

fn hint(name: &str) -> Hint {
    Hint {
        label: "h".to_string(),
        rect: PhysicalRect { x: 10, y: -20, w: 5, h: -5 },
        element: element(BUTTON, name),
    }
}

/// The socket protocol is the `Request` value-enum names: the new `panel`
/// line parses, legacy gesture lines keep their meaning, and garbage is
/// rejected (the daemon then falls back to the default).
#[test]
fn request_parses_socket_lines() {
    assert_eq!(Request::from_str("panel", false), Ok(Request::Panel));
    assert_eq!(
        Request::from_str("left_click", false),
        Ok(Request::LeftClick)
    );
    assert_eq!(
        Request::from_str("double_click", false),
        Ok(Request::DoubleClick)
    );
    assert_eq!(Request::from_str("warp", false), Ok(Request::Warp));
    assert!(Request::from_str("does-not-exist", false).is_err());
}

#[test]
fn request_round_trips_through_display() {
    for r in Request::value_variants() {
        assert_eq!(Request::from_str(&r.to_string(), false), Ok(r));
    }
}

#[test]
fn requests_are_told_apart_by_exact_names() {
    assert_eq!(Request::default(), Request::Panel);
    assert_eq!(Request::from_str("Left_Click", true), Ok(Request::LeftClick));
    assert_eq!(
        Request::from_str("Left_Click", false),
        Err("invalid variant: Left_Click".to_string())
    );
    assert_eq!(Request::from_str("panel ", false), Err("invalid variant: panel ".to_string()));
    assert_eq!(Request::value_variants().len(), 6);
}

#[test]
fn requests_stand_for_gestures() {
    let gestures: Vec<Option<Mode>> =
        Request::value_variants().iter().map(|r| r.gesture()).collect();
    assert_eq!(
        gestures,
        [
            Some(Mode::LeftClick),
            Some(Mode::RightClick),
            Some(Mode::MiddleClick),
            Some(Mode::DoubleClick),
            Some(Mode::Warp),
            None
        ]
    );
    for r in Request::value_variants() {
        if let Some(mode) = r.gesture() {
            assert_eq!(mode.as_str(), r.as_str());
        }
    }
}

#[test]
fn activations_are_reported_on_one_line() {
    assert_eq!(Activation::NoElements.to_string(), "no actionable elements found");
    assert_eq!(Activation::Cancelled.to_string(), "cancelled");
    assert_eq!(
        Activation::Activated {
            element: element(BUTTON, "Save \"as\"\n"),
            how: Dispatched::Action("Press".to_string()),
        }
        .to_string(),
        "selected Button \"Save \\\"as\\\"\\n\" (/org/a11y/7); dispatched: AT-SPI action \"Press\""
    );
    assert_eq!(
        Activation::Activated {
            element: element(LINK, "home"),
            how: Dispatched::Pointer { mode: Mode::MiddleClick, at: (-3, 2147483647) },
        }
        .to_string(),
        "selected Link \"home\" (/org/a11y/7); dispatched: synthetic middle_click at (-3, 2147483647)"
    );
}

#[test]
fn panel_outcomes_are_reported() {
    let dismissed = PanelOutcome::Dismissed { scrolls: 12, warped: true };
    assert_eq!(
        Activation::Panel(dismissed).to_string(),
        "panel dismissed (scrolls: 12, warped: true)"
    );
    assert_eq!(
        PanelOutcome::Dismissed { scrolls: 0, warped: false }.to_string(),
        "panel dismissed (scrolls: 0, warped: false)"
    );
    let clicked = |double: bool| PanelOutcome::Clicked {
        element: element(BUTTON, "OK"),
        at: (1, -2147483648),
        double,
    };
    assert_eq!(clicked(false).to_string(), "panel: clicked Button \"OK\" at (1, -2147483648)");
    assert_eq!(
        clicked(true).to_string(),
        "panel: double-clicked Button \"OK\" at (1, -2147483648)"
    );
    assert_eq!(
        PanelOutcome::RightClicked { element: element(BUTTON, "é"), at: (0, 0) }.to_string(),
        "panel: right-clicked Button \"é\" at (0, 0)"
    );
}

#[test]
fn gestures_need_elements_and_a_selection() {
    assert!(matches!(
        begin_gesture(&[], HintStyle::Short),
        GestureStep::Done(Activation::NoElements)
    ));
    let located = vec![(element(BUTTON, "OK"), PhysicalRect { x: 1, y: 2, w: 3, h: 4 })];
    match begin_gesture(&located, HintStyle::Short) {
        GestureStep::Select(hints) => assert_eq!(hints[0].label, "h"),
        other => panic!("{other:?}"),
    }
    assert!(matches!(
        dispatch_selected(None, Mode::LeftClick),
        GestureStep::Done(Activation::Cancelled)
    ));
}

#[test]
fn only_left_clicks_try_the_actions_first() {
    assert!(matches!(
        dispatch_selected(Some(hint("a")), Mode::LeftClick),
        GestureStep::TryAction(_)
    ));
    for mode in [Mode::RightClick, Mode::MiddleClick, Mode::DoubleClick, Mode::Warp] {
        match dispatch_selected(Some(hint("a")), mode) {
            GestureStep::Point { at, .. } => assert_eq!(at, (12, -22)),
            other => panic!("{other:?}"),
        }
    }
    match dispatch_tried(hint("a"), None) {
        GestureStep::Point { hint, at } => match dispatch_pointed(hint, Mode::LeftClick, at) {
            GestureStep::Done(done) => assert_eq!(
                done.to_string(),
                "selected Button \"a\" (/org/a11y/7); dispatched: synthetic left_click at (12, -22)"
            ),
            other => panic!("{other:?}"),
        },
        other => panic!("{other:?}"),
    }
    match dispatch_tried(hint("a"), Some("click".to_string())) {
        GestureStep::Done(Activation::Activated { how: Dispatched::Action(verb), .. }) => {
            assert_eq!(verb, "click")
        }
        other => panic!("{other:?}"),
    }
}

#[test]
fn the_panel_is_waited_for() {
    let mut wait = PanelWait::new();
    assert!(matches!(wait.on_event(PanelEvent::Rescan), PanelStep::Reply));
    assert!(wait.rescan_open);
    assert!(matches!(wait.on_event(PanelEvent::RescanClosed), PanelStep::Wait));
    assert!(!wait.rescan_open);
    let ended = PanelEvent::Ended(PanelOutcome::Dismissed { scrolls: 1, warped: false });
    match wait.on_event(ended) {
        PanelStep::Done(done) => {
            assert_eq!(done.to_string(), "panel dismissed (scrolls: 1, warped: false)")
        }
        other => panic!("{other:?}"),
    }
    assert!(located_or_empty(None).is_empty());
}

#[test]
fn dumps_are_aligned() {
    let el = element(BUTTON, "Save é");
    assert_eq!(
        tree_line(&el),
        format!("{:>14?} | {:<40} | {}", ::atspi::Role::Button, "Save é", "/org/a11y/7")
    );
    let r = PhysicalRect { x: -3, y: 123456, w: 7, h: 8 };
    assert_eq!(
        coords_line(&el, &r),
        format!(
            "{:>14?} | {:<32} | x={:<5} y={:<5} w={:<5} h={:<5} (center {:?})",
            ::atspi::Role::Button,
            "Save é",
            r.x,
            r.y,
            r.w,
            r.h,
            r.center(),
        )
    );
}

#[test]
fn reports_are_put_together_from_their_parts() {
    assert_eq!(subject("Link", "\"x\""), "Link \"x\"");
    assert_eq!(Dispatched::Action("a".to_string()).render("<a>"), "AT-SPI action <a>");
    assert_eq!(report_selected("E", "/p", "H"), "selected E (/p); dispatched: H");
    let right = PanelOutcome::RightClicked { element: element(LINK, "x"), at: (1, 2) };
    assert_eq!(right.render("E"), "panel: right-clicked E at (1, 2)");
    assert_eq!(tree_row("R", "n", "/p"), format!("R | {:<40} | /p", "n"));
    let r = PhysicalRect { x: 1, y: 2, w: 3, h: 4 };
    assert_eq!(
        coords_row("R", "n", &r),
        format!("R | {:<32} | x=1     y=2     w=3     h=4     (center (2, 4))", "n")
    );
}
