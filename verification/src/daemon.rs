//! The daemon's protocol: request lines, replies, and one activation at a time.

use crate::hints::HintStyle;
use crate::paths::{join, joined};
use crate::session::{law_request_names_differ, Activation, Request};
use crate::text::{
    chars_of, from_utf8, lemma_words_step, runs, same_value, split_words, string_of, white_space, words,
};
use vstd::prelude::*;
use vstd::utf8::{decode_utf8, encode_utf8, valid_utf8};

verus! {

// ---- request lines ----

/// The request with that name, if there is one.
pub open spec fn request_named(name: Seq<char>) -> Option<Request> {
    if exists|q: Request| #[trigger] q.text() == name {
        Some(choose|q: Request| #[trigger] q.text() == name)
    } else {
        None
    }
}

/// The hint style with that name, if there is one.
pub open spec fn style_named(name: Seq<char>) -> Option<HintStyle> {
    if name == HintStyle::Short.text() {
        Some(HintStyle::Short)
    } else {
        None
    }
}

/// The text of a request; bytes that are none count as empty.
pub open spec fn request_text(raw: Seq<u8>) -> Seq<char> {
    if valid_utf8(raw) {
        decode_utf8(raw)
    } else {
        seq![]
    }
}

/// What a request line asks for: its first word names the mode and its second
/// the hint style. What is missing or unknown is the default.
pub open spec fn requested(raw: Seq<u8>) -> (Request, HintStyle) {
    let ws = words(request_text(raw));
    let mode = if ws.len() > 0 {
        request_named(ws[0])
    } else {
        None
    };
    let style = if ws.len() > 1 {
        style_named(ws[1])
    } else {
        None
    };
    (
        match mode {
            Some(mode) => mode,
            None => Request::Panel,
        },
        match style {
            Some(style) => style,
            None => HintStyle::Short,
        },
    )
}

/// Parse a request line: `<mode> [hint-style]`.
pub fn parse_request(raw: &[u8]) -> (r: (Request, HintStyle))
    ensures
        r == requested(raw@),
{
    let text = match from_utf8(raw) {
        Some(text) => chars_of(text),
        None => Vec::new(),
    };
    assert(text@ =~= request_text(raw@));
    let tokens = split_words(text.as_slice());
    let ghost ws = words(request_text(raw@));
    assert(runs(tokens@) == ws);
    let mut mode = Request::default();
    if tokens.len() > 0 {
        let token = string_of(tokens[0].as_slice());
        assert(ws[0] == token@);
        match Request::from_str(token.as_str(), false) {
            Ok(named) => {
                mode = named;
                assert(named.text() == token@);
                assert(request_named(token@) == Some(named)) by {
                    let q = choose|q: Request| #[trigger] q.text() == token@;
                    law_request_names_differ(q, named);
                }
            },
            Err(_) => {
                assert forall|q: Request| #[trigger] q.text() != token@ by {
                    assert(!same_value(q.text(), token@, false));
                }
            },
        }
    }
    let mut style = HintStyle::default();
    if tokens.len() > 1 {
        let token = string_of(tokens[1].as_slice());
        assert(ws[1] == token@);
        if let Ok(named) = HintStyle::from_str(token.as_str(), false) {
            style = named;
        }
    }
    (mode, style)
}

/// The request line for a mode and a hint style.
pub open spec fn line_text(mode: Request, style: HintStyle) -> Seq<char> {
    mode.text() + " "@ + style.text() + "\n"@
}

/// The request line for a mode and a hint style.
pub fn request_line(mode: Request, style: HintStyle) -> (r: String)
    ensures
        r@ == line_text(mode, style),
{
    let mut r = mode.to_string();
    r.append(" ");
    r.append(style.as_str());
    r.append("\n");
    r
}

/// The names of modes and styles are words.
proof fn lemma_names_are_words(mode: Request, style: HintStyle)
    ensures
        mode.text().len() > 0,
        forall|i: int| 0 <= i < mode.text().len() ==> !white_space(#[trigger] mode.text()[i]),
        style.text().len() > 0,
        forall|i: int| 0 <= i < style.text().len() ==> !white_space(#[trigger] style.text()[i]),
{
    reveal_strlit("left_click");
    reveal_strlit("right_click");
    reveal_strlit("middle_click");
    reveal_strlit("double_click");
    reveal_strlit("warp");
    reveal_strlit("panel");
    reveal_strlit("short");
}

/// The daemon understands what a client asks for: a request line, sent as
/// UTF-8, is parsed into the mode and style that it was made of.
pub proof fn law_request_lines_round_trip(mode: Request, style: HintStyle)
    ensures
        requested(encode_utf8(line_text(mode, style))) == (mode, style),
{
    let line = line_text(mode, style);
    vstd::utf8::encode_utf8_valid_utf8(line);
    vstd::utf8::encode_utf8_decode_utf8(line);
    reveal_strlit(" ");
    reveal_strlit("\n");
    lemma_names_are_words(mode, style);
    let rest = style.text() + "\n"@;
    assert(line =~= mode.text().push(' ') + rest);
    lemma_words_step(mode.text(), ' ', rest);
    assert(rest =~= style.text().push('\n') + Seq::<char>::empty());
    lemma_words_step(style.text(), '\n', Seq::<char>::empty());
    assert(words(line) =~= seq![mode.text(), style.text()]);
    assert(words(line)[0] == mode.text());
    assert(words(line)[1] == style.text());
    let q = choose|q: Request| #[trigger] q.text() == mode.text();
    law_request_names_differ(q, mode);
}

/// Whatever the bytes, missing and unknown options degrade to the default.
pub proof fn law_unknown_options_default(raw: Seq<u8>)
    ensures
        ({
            let ws = words(request_text(raw));
            &&& ws.len() == 0 || (forall|q: Request| #[trigger] q.text() != ws[0])
                ==> requested(raw).0 == Request::Panel
            &&& ws.len() < 2 || ws[1] != HintStyle::Short.text() ==> requested(raw).1
                == HintStyle::Short
        }),
{
}

// ---- replies ----

/// The reply to a request that comes while an activation is in progress.
pub fn busy_reply() -> (r: &'static str)
    ensures
        r@ == "busy: peck is already serving an activation\n"@,
{
    "busy: peck is already serving an activation\n"
}

/// The reply to a request that was served: its outcome or its error, on a line.
pub fn reply_line(result: &Result<Activation, String>) -> (r: String)
    ensures
        r@ == match result {
            Ok(outcome) => outcome.text() + "\n"@,
            Err(e) => "error: "@ + e@ + "\n"@,
        },
{
    match result {
        Ok(outcome) => {
            let mut r = outcome.to_string();
            r.append("\n");
            r
        },
        Err(e) => {
            let mut r = String::new();
            r.append("error: ");
            r.append(e.as_str());
            r.append("\n");
            assert(r@ =~= "error: "@ + e@ + "\n"@);
            r
        },
    }
}

// ---- the socket ----

/// Socket path: `$XDG_RUNTIME_DIR/peck.sock`, falling back to the temp dir.
pub fn socket_path(runtime_dir: Option<Vec<u8>>, temp_dir: Vec<u8>) -> (r: Vec<u8>)
    ensures
        r@ == match runtime_dir {
            Some(dir) => joined(dir@, encode_utf8("peck.sock"@)),
            None => joined(temp_dir@, encode_utf8("peck.sock"@)),
        },
{
    match runtime_dir {
        Some(dir) => join(dir, "peck.sock".as_bytes()),
        None => join(temp_dir, "peck.sock".as_bytes()),
    }
}

/// What to do about the socket before binding it.
#[derive(Debug, Clone, Copy, PartialEq, Eq, Structural)]
pub enum BindStep {
    /// Nothing is in the way.
    Bind,
    /// A live daemon holds the socket.
    Refuse,
    /// A crashed daemon left the socket file behind: remove it first.
    RemoveStale,
}

/// Refuse to start if a *live* daemon already holds the socket; otherwise a
/// stale socket file left by a crashed daemon is removed.
pub fn bind_fresh(present: bool, live: bool) -> (r: BindStep)
    ensures
        r == if !present {
            BindStep::Bind
        } else if live {
            BindStep::Refuse
        } else {
            BindStep::RemoveStale
        },
{
    if !present {
        BindStep::Bind
    } else if live {
        BindStep::Refuse
    } else {
        BindStep::RemoveStale
    }
}

// ---- one activation at a time ----

/// What can happen to the daemon.
#[derive(Debug, Clone, Copy, PartialEq, Eq, Structural)]
pub enum ServeEvent {
    /// A client connected.
    Accepted,
    /// Accepting a connection failed.
    AcceptFailed,
    /// The activation in progress ended, well or not.
    Completed,
    /// Ctrl-C.
    Interrupted,
    /// SIGTERM.
    Terminated,
}

/// What the daemon does about it.
#[derive(Debug, Clone, Copy, PartialEq, Eq, Structural)]
pub enum ServeAction {
    /// Start an activation for the client.
    Start,
    /// Read the client's request to its end and answer [`busy_reply`].
    Refuse,
    /// Wait for the next event.
    Wait,
    /// Shut down.
    Stop,
    /// Give up with an error.
    Fail,
}

/// Accepts connections and runs one activation at a time. Repeated
/// activations are refused immediately rather than queued.
#[derive(Debug, Clone, Copy, PartialEq, Eq, Structural)]
pub struct Server {
    /// An activation is in progress.
    pub busy: bool,
}

impl Server {
    /// The state after an event, and what is done about the event.
    pub open spec fn step(self, event: ServeEvent) -> (Server, ServeAction) {
        match event {
            ServeEvent::Accepted => if self.busy {
                (self, ServeAction::Refuse)
            } else {
                (Server { busy: true }, ServeAction::Start)
            },
            ServeEvent::AcceptFailed => (self, ServeAction::Fail),
            ServeEvent::Completed => (Server { busy: false }, ServeAction::Wait),
            ServeEvent::Interrupted => (self, ServeAction::Stop),
            ServeEvent::Terminated => (self, ServeAction::Stop),
        }
    }

    pub fn new() -> (r: Server)
        ensures
            !r.busy,
    {
        Server { busy: false }
    }

    /// React to an event. An activation completes only while one is in
    /// progress.
    pub fn on_event(&mut self, event: ServeEvent) -> (r: ServeAction)
        requires
            event is Completed ==> old(self).busy,
        ensures
            (*final(self), r) == old(self).step(event),
    {
        match event {
            ServeEvent::Accepted => {
                if self.busy {
                    ServeAction::Refuse
                } else {
                    self.busy = true;
                    ServeAction::Start
                }
            },
            ServeEvent::AcceptFailed => ServeAction::Fail,
            ServeEvent::Completed => {
                self.busy = false;
                ServeAction::Wait
            },
            ServeEvent::Interrupted => ServeAction::Stop,
            ServeEvent::Terminated => ServeAction::Stop,
        }
    }
}

/// A server after a series of events, and what it did about each.
pub open spec fn served(s: Server, events: Seq<ServeEvent>) -> (Server, Seq<ServeAction>)
    decreases events.len(),
{
    if events.len() == 0 {
        (s, seq![])
    } else {
        let (t, before) = served(s, events.drop_last());
        let (u, last) = t.step(events.last());
        (u, before.push(last))
    }
}

/// How many of `s` are `x`.
pub open spec fn count<T>(s: Seq<T>, x: T) -> nat
    decreases s.len(),
{
    if s.len() == 0 {
        0
    } else {
        count(s.drop_last(), x) + (if s.last() == x {
            1nat
        } else {
            0nat
        })
    }
}

/// An activation completes only while one is in progress.
pub open spec fn orderly(s: Server, events: Seq<ServeEvent>) -> bool
    decreases events.len(),
{
    events.len() > 0 ==> {
        &&& orderly(s, events.drop_last())
        &&& events.last() is Completed ==> served(s, events.drop_last()).0.busy
    }
}

/// Whatever happens, at most one activation is in progress: as many were
/// started as completed, and one more exactly while the daemon is busy. Every
/// client is either served or refused.
pub proof fn law_one_activation_at_a_time(events: Seq<ServeEvent>)
    requires
        orderly(Server { busy: false }, events),
    ensures
        ({
            let (s, actions) = served(Server { busy: false }, events);
            &&& count(actions, ServeAction::Start) == count(events, ServeEvent::Completed) + (
            if s.busy {
                1nat
            } else {
                0nat
            })
            &&& count(events, ServeEvent::Accepted) == count(actions, ServeAction::Start) + count(
                actions,
                ServeAction::Refuse,
            )
        }),
    decreases events.len(),
{
    if events.len() > 0 {
        law_one_activation_at_a_time(events.drop_last());
        let (t, before) = served(Server { busy: false }, events.drop_last());
        let (u, last) = t.step(events.last());
        assert(before.push(last).drop_last() =~= before);
    }
}

/// While one activation is in flight, a second connection is refused and
/// starts nothing; once the first completes, the next one is served.
pub proof fn law_overlapping_activations_are_refused(s: Server)
    requires
        s.busy,
    ensures
        s.step(ServeEvent::Accepted) == (s, ServeAction::Refuse),
        ({
            let idle = s.step(ServeEvent::Completed).0;
            idle.step(ServeEvent::Accepted).1 == ServeAction::Start
        }),
{
}

/// Ctrl-C and SIGTERM shut the daemon down at any time.
pub proof fn law_signals_stop_the_daemon(s: Server)
    ensures
        s.step(ServeEvent::Interrupted).1 == ServeAction::Stop,
        s.step(ServeEvent::Terminated).1 == ServeAction::Stop,
{
}

// ---- what requests and events come to ----

/// The first word of a request decides its mode, whatever else the request
/// holds, and the second one its style; bytes that are no text ask for the
/// default.
pub proof fn law_first_word_names_the_mode(raw: Seq<u8>, mode: Request)
    ensures
        valid_utf8(raw) && words(decode_utf8(raw)).len() > 0 && words(decode_utf8(raw))[0]
            == mode.text() ==> requested(raw).0 == mode,
        !valid_utf8(raw) ==> requested(raw) == (Request::Panel, HintStyle::Short),
{
    if valid_utf8(raw) && words(decode_utf8(raw)).len() > 0 && words(decode_utf8(raw))[0]
        == mode.text() {
        let q = choose|q: Request| #[trigger] q.text() == mode.text();
        law_request_names_differ(q, mode);
    }
    if !valid_utf8(raw) {
        assert(words(request_text(raw)) =~= seq![]);
    }
}

/// Connections, completions and signals: an idle daemon starts an activation
/// and is busy from then on until it completes; only a failure to accept makes
/// it give up, and neither that nor a signal changes what is in progress.
pub proof fn law_what_the_daemon_does(s: Server)
    ensures
        !s.busy ==> s.step(ServeEvent::Accepted).1 == ServeAction::Start && s.step(
            ServeEvent::Accepted,
        ).0.busy,
        s.busy ==> s.step(ServeEvent::Accepted).1 == ServeAction::Refuse && s.step(
            ServeEvent::Accepted,
        ).0.busy,
        !s.step(ServeEvent::Completed).0.busy,
        s.step(ServeEvent::Completed).1 == ServeAction::Wait,
        s.step(ServeEvent::AcceptFailed).1 == ServeAction::Fail,
        s.step(ServeEvent::AcceptFailed).0.busy == s.busy,
        s.step(ServeEvent::Interrupted).0.busy == s.busy,
        s.step(ServeEvent::Terminated).0.busy == s.busy,
{
}

/// A request line is the name of the mode, a space, the name of the style, and
/// the end of the line.
pub proof fn law_request_lines_are_two_words(mode: Request, style: HintStyle)
    ensures
        words(line_text(mode, style)) == seq![mode.text(), style.text()],
        line_text(mode, style).last() == '\n',
        line_text(mode, style).len() == mode.text().len() + style.text().len() + 2,
{
    let line = line_text(mode, style);
    reveal_strlit(" ");
    reveal_strlit("\n");
    lemma_names_are_words(mode, style);
    let rest = style.text() + "\n"@;
    assert(line =~= mode.text().push(' ') + rest);
    lemma_words_step(mode.text(), ' ', rest);
    assert(rest =~= style.text().push('\n') + Seq::<char>::empty());
    lemma_words_step(style.text(), '\n', Seq::<char>::empty());
    assert(words(line) =~= seq![mode.text(), style.text()]);
}

} // verus!
