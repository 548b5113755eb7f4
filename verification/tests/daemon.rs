use peck::daemon::{
    bind_fresh, busy_reply, parse_request, reply_line, request_line, socket_path, BindStep,
    ServeAction, ServeEvent, Server,
};
use peck::hints::HintStyle;
use peck::session::{Activation, Request};

/// Socket lines carry `<mode> [hint-style]` (e.g. `panel short`)
/// Unrecognised or missing options default gracefully.
#[test]
fn parse_request_lines() {
    assert_eq!(
        parse_request(b"panel short\n"),
        (Request::Panel, HintStyle::Short)
    );
    // Invalid hint-style degrades to default
    assert_eq!(
        parse_request(b"left_click uniform\n"),
        (Request::LeftClick, HintStyle::default())
    );
    // Missing hint-style degrades to default
    assert_eq!(
        parse_request(b"warp\n"),
        (Request::Warp, HintStyle::default())
    );
    // Missing mode+hint-style degrades to default
    assert_eq!(
        parse_request(b"\n"),
        (Request::default(), HintStyle::default())
    );
    // Invalid mode+hint-style degrades to default
    assert_eq!(
        parse_request(b"nonsense nonsense\n"),
        (Request::default(), HintStyle::default())
    );
}

/// While one activation is in flight, a second connection must be refused
#[test]
fn refuses_overlapping_activations() {
    let mut server = Server::new();
    assert_eq!(server.on_event(ServeEvent::Accepted), ServeAction::Start);
    assert_eq!(server.on_event(ServeEvent::Accepted), ServeAction::Refuse);
    assert!(busy_reply().starts_with("busy:"));
    assert!(server.busy);
    assert_eq!(server.on_event(ServeEvent::Completed), ServeAction::Wait);
    assert_eq!(server.on_event(ServeEvent::Accepted), ServeAction::Start);
}

#[test]
fn signals_and_failures_end_the_service() {
    for busy in [false, true] {
        for (event, action) in [
            (ServeEvent::Interrupted, ServeAction::Stop),
            (ServeEvent::Terminated, ServeAction::Stop),
            (ServeEvent::AcceptFailed, ServeAction::Fail),
        ] {
            let mut server = Server { busy };
            assert_eq!(server.on_event(event), action);
        }
    }
}

#[test]
fn request_lines_round_trip() {
    for mode in Request::value_variants() {
        for style in HintStyle::value_variants() {
            let line = request_line(mode, style);
            assert_eq!(line, format!("{} {}\n", mode.as_str(), style.as_str()));
            assert_eq!(parse_request(line.as_bytes()), (mode, style));
        }
    }
}

#[test]
fn requests_tolerate_odd_bytes_and_spaces() {
    assert_eq!(parse_request(b"warp \xff"), (Request::Panel, HintStyle::Short));
    assert_eq!(parse_request(b""), (Request::Panel, HintStyle::Short));
    assert_eq!(parse_request(b" \t warp\r\n short extra"), (Request::Warp, HintStyle::Short));
    assert_eq!(
        parse_request("\u{2003}warp\u{3000}short".as_bytes()),
        (Request::Warp, HintStyle::Short)
    );
    assert_eq!(parse_request(b"WARP"), (Request::Panel, HintStyle::Short));
}

#[test]
fn replies_end_with_a_line_feed() {
    assert_eq!(busy_reply(), "busy: peck is already serving an activation\n");
    assert_eq!(reply_line(&Ok(Activation::Cancelled)), "cancelled\n");
    assert_eq!(reply_line(&Err("no bus".to_string())), "error: no bus\n");
}

#[test]
fn the_socket_lies_in_the_runtime_directory() {
    let temp = b"/tmp".to_vec();
    assert_eq!(socket_path(Some(b"/run/user/1000".to_vec()), temp.clone()), b"/run/user/1000/peck.sock");
    assert_eq!(socket_path(Some(b"/run/".to_vec()), temp.clone()), b"/run/peck.sock");
    assert_eq!(socket_path(None, temp.clone()), b"/tmp/peck.sock");
    assert_eq!(socket_path(Some(Vec::new()), temp), b"peck.sock");
}

#[test]
fn only_stale_sockets_are_removed() {
    assert_eq!(bind_fresh(false, false), BindStep::Bind);
    assert_eq!(bind_fresh(true, true), BindStep::Refuse);
    assert_eq!(bind_fresh(true, false), BindStep::RemoveStale);
}
