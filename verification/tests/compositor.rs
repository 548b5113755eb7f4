use peck::niri::{
    config_candidates, config_from_environ, find_workspace, focused_output, focused_window,
    is_niri, output_mode, parse_gaps, pid_candidates, placement, plan_tiles, GeometryError,
    Placement, Question, Reply, Tile,
};

#[test]
fn gaps_are_found_in_the_configuration() {
    let text = "layout {\n    gaps 12\n}\n";
    assert_eq!(parse_gaps(text), ["12"]);
    assert_eq!(parse_gaps("\"gaps\" \"8.5\" // wide\r\n"), ["8.5"]);
    assert_eq!(parse_gaps("gaps-foo 3\ngapsx\ngaps\ngaps\t7"), ["7"]);
    assert_eq!(parse_gaps("// gaps 3"), Vec::<String>::new());
    assert_eq!(parse_gaps("gaps wide\n  gaps 16"), ["wide", "16"]);
    assert_eq!(parse_gaps(""), Vec::<String>::new());
}

#[test]
fn configurations_are_tried_in_order() {
    let b = |s: &str| s.as_bytes().to_vec();
    assert_eq!(
        config_candidates(Some(b("/n.kdl")), Some(b("/p.kdl")), Some(b("/xdg")), Some(b("/home/u/"))),
        [
            b("/n.kdl"),
            b("/p.kdl"),
            b("/xdg/niri/config.kdl"),
            b("/home/u/.config/niri/config.kdl"),
            b("/etc/niri/config.kdl"),
        ]
    );
    assert_eq!(config_candidates(None, None, None, None), [b("/etc/niri/config.kdl")]);
}

#[test]
fn socket_names_hold_the_process_id() {
    assert_eq!(pid_candidates("niri.wayland-1.4242.sock"), [4242]);
    assert_eq!(pid_candidates("niri.7.+8.-9.4294967296.4294967295.x1"), [7, 8, 4294967295]);
    assert_eq!(pid_candidates("niri.+.sock"), Vec::<u32>::new());
    assert_eq!(pid_candidates(""), Vec::<u32>::new());
    assert_eq!(pid_candidates("007"), [7]);
}

#[test]
fn niri_is_known_by_its_name() {
    assert!(is_niri("niri\n"));
    assert!(is_niri("niri"));
    assert!(is_niri(" \tniri\u{a0}"));
    assert!(!is_niri("niri2\n"));
    assert!(!is_niri("\n"));
}

#[test]
fn environments_hold_the_configuration() {
    assert_eq!(
        config_from_environ(b"A=1\0NIRI_CONFIG=/x/y.kdl\0NIRI_CONFIG=/z\0"),
        Some(b"/x/y.kdl".to_vec())
    );
    assert_eq!(config_from_environ(b"XNIRI_CONFIG=/x\0NIRI_CONFIG\0"), None);
    assert_eq!(config_from_environ(b"NIRI_CONFIG="), Some(Vec::new()));
    assert_eq!(config_from_environ(b"NIRI_CONFIG=\xff\xfe"), Some(vec![0xff, 0xfe]));
    assert_eq!(config_from_environ(b""), None);
}

#[test]
fn replies_are_told_apart() {
    assert_eq!(focused_window(Reply::Value(Some(5))).unwrap(), 5);
    let none = focused_window(Reply::<Option<u32>>::Value(None)).unwrap_err();
    assert_eq!(none.to_string(), "no focused window (a layer-shell surface may hold focus)");
    let other = focused_window(Reply::<Option<u32>>::Other("Handled".to_string())).unwrap_err();
    assert_eq!(other.to_string(), "unexpected niri response to FocusedWindow: Handled");
    assert_eq!(focused_output(Reply::Value(Some(6))).unwrap(), 6);
    let none = focused_output(Reply::<Option<u32>>::Value(None)).unwrap_err();
    assert_eq!(none.to_string(), "focused window has no output");
    let other = focused_output(Reply::<Option<u32>>::Other("x".to_string())).unwrap_err();
    assert_eq!(other.to_string(), "unexpected niri response to FocusedOutput: x");
}

#[test]
fn windows_are_placed_by_their_kind() {
    assert_eq!(placement(true, true, None).unwrap(), Placement::Floating);
    assert_eq!(
        placement(true, false, Some((1, 1))).unwrap_err().to_string(),
        "floating window missing tile_pos_in_workspace_view"
    );
    assert_eq!(
        placement(false, true, Some((2, 3))).unwrap(),
        Placement::Tiled { column: 2, tile: 3 }
    );
    assert_eq!(
        placement(false, true, None).unwrap_err().to_string(),
        "tiled window missing pos_in_scrolling_layout"
    );
}

#[test]
fn the_workspace_of_the_window_is_found() {
    assert_eq!(find_workspace(Reply::Value(vec![4, 9, 9]), Some(9)).unwrap(), 1);
    for wanted in [Some(3), None] {
        assert_eq!(
            find_workspace(Reply::Value(vec![4, 9]), wanted).unwrap_err().to_string(),
            "could not find the window's workspace"
        );
    }
    assert_eq!(
        find_workspace(Reply::Other("?".to_string()), Some(1)).unwrap_err().to_string(),
        "unexpected niri response to Workspaces: ?"
    );
}

#[test]
fn tiles_to_the_left_and_above_are_collected() {
    let t = |workspace, layout| Tile { workspace, layout };
    let tiles = vec![
        t(Some(1), Some((1, 1))),
        t(Some(2), Some((1, 1))),
        t(Some(1), Some((3, 1))),
        t(Some(1), Some((3, 2))),
        t(Some(1), Some((3, 3))),
        t(Some(1), None),
        t(Some(1), Some((1, 2))),
    ];
    let plan = plan_tiles(Reply::Value(tiles), Some(1), 3, 3).unwrap();
    assert_eq!(plan.columns, vec![vec![0, 6], vec![]]);
    assert_eq!(plan.above, [2, 3]);
    let plan = plan_tiles(Reply::Value(Vec::new()), None, 0, 0).unwrap();
    assert!(plan.columns.is_empty() && plan.above.is_empty());
    let failed = plan_tiles(Reply::Other("?".to_string()), None, 1, 1).unwrap_err();
    assert!(matches!(failed, GeometryError::Unexpected { question: Question::Windows, .. }));
    assert_eq!(failed.to_string(), "unexpected niri response to Windows: ?");
}

#[test]
fn outputs_have_the_size_of_their_mode() {
    let modes = vec![(1920, 1080), (3840, 2160)];
    assert_eq!(output_mode(true, &modes, Some(1)).unwrap(), (3840, 2160));
    for current in [Some(2), None] {
        assert_eq!(
            output_mode(true, &modes, current).unwrap_err().to_string(),
            "focused output has no current mode"
        );
    }
    assert_eq!(
        output_mode(false, &modes, Some(0)).unwrap_err().to_string(),
        "focused output has no logical geometry (disabled?)"
    );
}
