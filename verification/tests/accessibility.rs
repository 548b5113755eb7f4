use peck::atspi::action::{choose_action, performed_verb, plan_action, prefers_pointer};
use peck::atspi::frame::{FrameEvent, FramePhase, FrameSearch};
use peck::atspi::tree::{is_actionable, is_actionable_role, is_interactable, is_web_document};
use peck::atspi::walk::{TreeWalk, WalkAction, WalkEvent};
use peck::atspi::{ObjectRef, Role, State, StateSet, DOCUMENT_WEB, ENTRY, LINK, BUTTON};
use peck::geometry::{can_subtract, frame_origin, located, window_relative, PhysicalRect};

fn object(path: &str) -> ObjectRef {
    ObjectRef { name: Some(":1.1".to_string()), path: path.to_string() }
}

fn role(code: u32) -> Role {
    Role::from_code(code).unwrap()
}

fn set(states: &[State]) -> StateSet {
    let mut bits: u64 = 0;
    for s in states {
        bits |= s.bit();
    }
    StateSet { bits }
}

#[test]
fn role_numbers_and_names_are_those_of_the_bus() {
    for code in 0..=129u32 {
        let outside = ::atspi::Role::try_from(code).expect("a role");
        assert_eq!(role(code).name(), format!("{outside:?}"));
        assert_eq!(outside as u32, code);
    }
    assert!(::atspi::Role::try_from(130u32).is_err());
    assert!(Role::from_code(130).is_none());
    assert_eq!(Role::invalid().name(), "Invalid");
}

#[test]
fn state_bits_are_those_of_the_bus() {
    let pairs = [
        (State::Active, ::atspi::State::Active),
        (State::Enabled, ::atspi::State::Enabled),
        (State::Sensitive, ::atspi::State::Sensitive),
        (State::Showing, ::atspi::State::Showing),
        (State::Visible, ::atspi::State::Visible),
    ];
    for (ours, theirs) in pairs {
        let outside = ::atspi::StateSet::new(theirs);
        let ours_set = StateSet { bits: outside.bits() };
        assert_eq!(ours.bit(), outside.bits());
        for (other, _) in pairs {
            assert_eq!(ours_set.contains(other), other == ours);
        }
    }
}

#[test]
fn actionable_roles_are_the_listed_ones() {
    let listed = [
        ::atspi::Role::Button,
        ::atspi::Role::ToggleButton,
        ::atspi::Role::PushButtonMenu,
        ::atspi::Role::CheckBox,
        ::atspi::Role::RadioButton,
        ::atspi::Role::CheckMenuItem,
        ::atspi::Role::RadioMenuItem,
        ::atspi::Role::MenuItem,
        ::atspi::Role::Menu,
        ::atspi::Role::Link,
        ::atspi::Role::PageTab,
        ::atspi::Role::ComboBox,
        ::atspi::Role::Slider,
        ::atspi::Role::SpinButton,
        ::atspi::Role::Entry,
        ::atspi::Role::PasswordText,
    ];
    let pointed = [::atspi::Role::Entry, ::atspi::Role::PasswordText, ::atspi::Role::ComboBox, ::atspi::Role::Slider, ::atspi::Role::SpinButton];
    let documents = [::atspi::Role::DocumentWeb, ::atspi::Role::DocumentFrame];
    for code in 0..=129u32 {
        let outside = ::atspi::Role::try_from(code).expect("a role");
        assert_eq!(is_actionable_role(role(code)), listed.contains(&outside), "{outside:?}");
        assert_eq!(prefers_pointer(role(code)), pointed.contains(&outside), "{outside:?}");
        assert_eq!(is_web_document(role(code)), documents.contains(&outside), "{outside:?}");
    }
}

#[test]
fn targets_are_on_screen_and_enabled() {
    assert!(is_interactable(&set(&[State::Showing, State::Visible, State::Enabled])));
    assert!(is_interactable(&set(&[State::Showing, State::Visible, State::Sensitive])));
    assert!(!is_interactable(&set(&[State::Showing, State::Visible])));
    assert!(!is_interactable(&set(&[State::Showing, State::Enabled])));
    assert!(!is_interactable(&set(&[State::Visible, State::Enabled])));
    assert!(is_actionable(role(LINK), &set(&[State::Showing, State::Visible, State::Enabled])));
    assert!(!is_actionable(role(0), &set(&[State::Showing, State::Visible, State::Enabled])));
    assert!(!is_actionable(role(LINK), &set(&[State::Visible, State::Enabled])));
}

#[test]
fn the_preferred_verb_wins_over_the_order_of_actions() {
    let names = |v: &[&str]| v.iter().map(|s| s.to_string()).collect::<Vec<String>>();
    assert_eq!(choose_action(&names(&["open", "Press"])), Some((1, "Press".to_string())));
    assert_eq!(
        choose_action(&names(&["jump", "DoubleClick", "click"])),
        Some((1, "DoubleClick".to_string()))
    );
    assert_eq!(choose_action(&names(&["expand", "menu"])), None);
    assert_eq!(choose_action(&[]), None);
    assert_eq!(choose_action(&names(&["", "ACTIVATE"])), Some((1, "ACTIVATE".to_string())));
}

#[test]
fn text_entries_and_silent_elements_fall_back_to_the_pointer() {
    let names = vec!["click".to_string()];
    assert_eq!(plan_action(role(BUTTON), Some(&names)), Some((0, "click".to_string())));
    assert_eq!(plan_action(role(ENTRY), Some(&names)), None);
    assert_eq!(plan_action(role(BUTTON), None), None);
    assert_eq!(performed_verb(true, "click".to_string()), Some("click".to_string()));
    assert_eq!(performed_verb(false, "click".to_string()), None);
}

#[test]
fn the_first_active_toplevel_is_found() {
    let mut search = FrameSearch::new(vec![object("/a"), object("/b"), object("/c")]);
    assert!(matches!(&search.phase, FramePhase::Listing { app } if app.path == "/a"));
    // The first application cannot be reached.
    let phase = search.on_event(FrameEvent::Toplevels(None));
    assert!(matches!(phase, FramePhase::Listing { app } if app.path == "/b"));
    let phase = search.on_event(FrameEvent::Toplevels(Some(vec![object("/b/1"), object("/b/2")])));
    assert!(matches!(phase, FramePhase::Reading { top } if top.path == "/b/1"));
    let phase = search.on_event(FrameEvent::States(None));
    assert!(matches!(phase, FramePhase::Reading { top } if top.path == "/b/2"));
    let phase = search.on_event(FrameEvent::States(Some(set(&[State::Active]))));
    assert!(matches!(phase, FramePhase::Done(Some(top)) if top.path == "/b/2"));

    let mut none = FrameSearch::new(vec![object("/a")]);
    none.on_event(FrameEvent::Toplevels(Some(vec![object("/a/1")])));
    let phase = none.on_event(FrameEvent::States(Some(set(&[State::Showing]))));
    assert!(matches!(phase, FramePhase::Done(None)));
    assert!(matches!(FrameSearch::new(Vec::new()).phase, FramePhase::Done(None)));
}

/// A tree to walk: path, states, role, children.
struct Fake {
    path: &'static str,
    states: Option<StateSet>,
    role: u32,
    children: Vec<Fake>,
}

fn find<'a>(node: &'a Fake, path: &str) -> Option<&'a Fake> {
    if node.path == path {
        return Some(node);
    }
    node.children.iter().find_map(|c| find(c, path))
}

fn walk(root: &Fake) -> Vec<String> {
    let mut machine = TreeWalk::new(object(root.path));
    let mut current = root;
    let mut action = machine.action();
    loop {
        let event = match action {
            WalkAction::Inspect(o) => {
                current = find(root, &o.path).expect("a node");
                WalkEvent::States(current.states)
            }
            WalkAction::AskRole => WalkEvent::Role(Role::from_code(current.role)),
            WalkAction::Judge(r, s) => WalkEvent::Verdict(is_actionable(r, &s)),
            WalkAction::AskName => WalkEvent::Name(Some(current.path.to_string())),
            WalkAction::AskChildren => {
                WalkEvent::Children(Some(current.children.iter().map(|c| object(c.path)).collect()))
            }
            WalkAction::Done => break,
        };
        action = machine.on_event(event);
    }
    machine.found.iter().map(|e| e.name.clone()).collect()
}

#[test]
fn the_walk_prunes_hidden_subtrees_in_preorder() {
    let on = Some(set(&[State::Showing, State::Visible, State::Enabled]));
    let leaf = |path, states, role| Fake { path, states, role, children: Vec::new() };
    let root = Fake {
        path: "/root",
        states: on,
        role: 23,
        children: vec![
            Fake {
                path: "/menu",
                states: on,
                role: 33,
                children: vec![leaf("/item", on, 35)],
            },
            Fake {
                path: "/gone",
                states: Some(set(&[State::Visible, State::Enabled])),
                role: BUTTON,
                children: vec![leaf("/under", on, BUTTON)],
            },
            leaf("/broken", None, BUTTON),
            Fake {
                path: "/page",
                states: on,
                role: DOCUMENT_WEB,
                children: vec![
                    // Inside a document only VISIBLE counts for pruning.
                    Fake {
                        path: "/section",
                        states: Some(set(&[State::Visible])),
                        role: 85,
                        children: vec![leaf("/link", on, LINK)],
                    },
                    Fake {
                        path: "/hidden",
                        states: Some(set(&[State::Showing])),
                        role: 85,
                        children: vec![leaf("/dark", on, LINK)],
                    },
                ],
            },
            leaf("/last", on, BUTTON),
        ],
    };
    assert_eq!(walk(&root), ["/menu", "/item", "/link", "/last"]);
}

#[test]
fn replies_that_fail_have_their_defaults() {
    let on = set(&[State::Showing, State::Visible, State::Enabled]);
    let mut machine = TreeWalk::new(object("/root"));
    machine.on_event(WalkEvent::States(Some(on)));
    match machine.on_event(WalkEvent::Role(None)) {
        WalkAction::Judge(r, s) => {
            assert_eq!(r, Role::invalid());
            assert_eq!(s, on);
        }
        other => panic!("{other:?}"),
    }
    assert!(matches!(machine.on_event(WalkEvent::Verdict(true)), WalkAction::AskName));
    assert!(matches!(machine.on_event(WalkEvent::Name(None)), WalkAction::AskChildren));
    assert!(matches!(machine.on_event(WalkEvent::Children(None)), WalkAction::Done));
    assert_eq!(machine.found.len(), 1);
    assert_eq!(machine.found[0].name, "");
}

#[test]
fn elements_are_located_relative_to_the_frame() {
    assert_eq!(frame_origin(Some((20, 30, 1, 1))), (20, 30));
    assert_eq!(frame_origin(None), (0, 0));
    assert_eq!(window_relative((25, 31, 7, 8), (20, 30)), (5, 1, 7, 8));
    assert!(can_subtract((0, 0, 0, 0), (1, 1)));
    assert!(!can_subtract((i32::MIN, 0, 0, 0), (1, 0)));
    assert!(!can_subtract((0, i32::MAX, 0, 0), (0, -1)));
}

#[test]
fn centers_round_towards_the_corner() {
    assert_eq!(PhysicalRect { x: 10, y: 20, w: 5, h: 7 }.center(), (12, 23));
    assert_eq!(PhysicalRect { x: 10, y: 20, w: -5, h: -7 }.center(), (8, 17));
    assert!(PhysicalRect { x: i32::MAX, y: 0, w: 1, h: 0 }.center_fits());
    assert!(!PhysicalRect { x: i32::MAX, y: 0, w: 2, h: 0 }.center_fits());
    let lowest = PhysicalRect { x: 0, y: 0, w: i32::MIN, h: 0 };
    assert_eq!(lowest.center(), (i32::MIN / 2, 0));
}

#[test]
fn elements_without_a_place_are_dropped() {
    let mut machine = TreeWalk::new(object("/root"));
    machine.on_event(WalkEvent::States(Some(set(&[State::Showing]))));
    machine.on_event(WalkEvent::Role(Some(role(BUTTON))));
    machine.on_event(WalkEvent::Verdict(true));
    machine.on_event(WalkEvent::Name(Some("a".to_string())));
    let el = machine.found[0].clone();
    let rect = PhysicalRect { x: 1, y: 2, w: 3, h: 4 };
    let got = located(vec![el.clone(), el.clone(), el], &vec![None, Some(rect), None]);
    assert_eq!(got.len(), 1);
    assert_eq!(got[0].1, rect);
}
