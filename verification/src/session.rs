//! One activation: what is asked for, the steps that carry it out, and how its
//! outcome is reported.

use crate::atspi::{role_name, Element};
use crate::geometry::PhysicalRect;
use crate::hints::short::{demoted, short_labels};
use crate::hints::{assign, carried, labels_of, Hint, HintStyle};
use crate::pointer::Mode;
use crate::text::{
    ascii_lowercase, decimal, invalid_variant, names_value, push_decimal, quote, quoted,
    reject_variant, same_value,
};
use vstd::prelude::*;

verus! {

// ---- requests ----

#[derive(Debug, Clone, Copy, PartialEq, Eq, Structural)]
pub enum Request {
    /// Click the selected element (prefers its semantic AT-SPI action).
    LeftClick,
    /// Right-click the selected element.
    RightClick,
    /// Middle-click the selected element.
    MiddleClick,
    /// Double-click the selected element.
    DoubleClick,
    /// Warp the cursor to the selected element without clicking.
    Warp,
    /// Open the panel: a fuzzy-searchable element list plus hints; the chosen
    /// element is highlighted first and acted on with a second key.
    Panel,
}

impl Default for Request {
    fn default() -> (r: Request)
        ensures
            r == Request::Panel,
    {
        Request::Panel
    }
}

impl Request {
    /// The gesture this request dispatches, or `None` for the panel.
    pub fn gesture(self) -> (r: Option<Mode>)
        ensures
            r == match self {
                Request::LeftClick => Some(Mode::LeftClick),
                Request::RightClick => Some(Mode::RightClick),
                Request::MiddleClick => Some(Mode::MiddleClick),
                Request::DoubleClick => Some(Mode::DoubleClick),
                Request::Warp => Some(Mode::Warp),
                Request::Panel => None,
            },
            r matches Some(mode) ==> mode.text() == self.text(),
    {
        match self {
            Request::LeftClick => Some(Mode::LeftClick),
            Request::RightClick => Some(Mode::RightClick),
            Request::MiddleClick => Some(Mode::MiddleClick),
            Request::DoubleClick => Some(Mode::DoubleClick),
            Request::Warp => Some(Mode::Warp),
            Request::Panel => None,
        }
    }

    /// The name of the request.
    pub open spec fn text(self) -> Seq<char> {
        match self {
            Request::LeftClick => "left_click"@,
            Request::RightClick => "right_click"@,
            Request::MiddleClick => "middle_click"@,
            Request::DoubleClick => "double_click"@,
            Request::Warp => "warp"@,
            Request::Panel => "panel"@,
        }
    }

    pub fn as_str(self) -> (r: &'static str)
        ensures
            r@ == self.text(),
    {
        match self {
            Request::LeftClick => "left_click",
            Request::RightClick => "right_click",
            Request::MiddleClick => "middle_click",
            Request::DoubleClick => "double_click",
            Request::Warp => "warp",
            Request::Panel => "panel",
        }
    }

    /// The name of the request, as an owned string.
    pub fn to_string(&self) -> (r: String)
        ensures
            r@ == self.text(),
    {
        self.as_str().to_owned()
    }

    /// All requests.
    pub fn value_variants() -> (r: Vec<Request>)
        ensures
            r@ == seq![
                Request::LeftClick,
                Request::RightClick,
                Request::MiddleClick,
                Request::DoubleClick,
                Request::Warp,
                Request::Panel,
            ],
            forall|q: Request| #[trigger] r@.contains(q),
    {
        let r = vec![
            Request::LeftClick,
            Request::RightClick,
            Request::MiddleClick,
            Request::DoubleClick,
            Request::Warp,
            Request::Panel,
        ];
        proof {
            assert forall|q: Request| #[trigger] r@.contains(q) by {
                match q {
                    Request::LeftClick => assert(r@[0] == q),
                    Request::RightClick => assert(r@[1] == q),
                    Request::MiddleClick => assert(r@[2] == q),
                    Request::DoubleClick => assert(r@[3] == q),
                    Request::Warp => assert(r@[4] == q),
                    Request::Panel => assert(r@[5] == q),
                }
            }
        }
        r
    }

    /// The request with the given name.
    pub fn from_str(input: &str, ignore_case: bool) -> (r: Result<Request, String>)
        ensures
            match r {
                Ok(q) => {
                    &&& same_value(q.text(), input@, ignore_case)
                    &&& forall|p: Request|
                        #[trigger] same_value(p.text(), input@, ignore_case) ==> p == q
                },
                Err(message) => {
                    &&& forall|p: Request| !#[trigger] same_value(p.text(), input@, ignore_case)
                    &&& message@ == invalid_variant(input@)
                },
            },
    {
        let all = Request::value_variants();
        for i in 0..all.len()
            invariant
                forall|q: Request| #[trigger] all@.contains(q),
                forall|j: int|
                    0 <= j < i ==> !#[trigger] same_value(all@[j].text(), input@, ignore_case),
        {
            let q = all[i];
            if names_value(q.as_str(), input, ignore_case) {
                proof {
                    assert forall|p: Request| #[trigger]
                        same_value(p.text(), input@, ignore_case) implies p == q by {
                        law_request_names_differ(p, q);
                    }
                }
                return Ok(q);
            }
        }
        proof {
            assert forall|p: Request| !#[trigger] same_value(p.text(), input@, ignore_case) by {
                assert(all@.contains(p));
                let j = choose|j: int| 0 <= j < all@.len() && all@[j] == p;
                assert(!same_value(all@[j].text(), input@, ignore_case));
            }
        }
        Err(reject_variant(input))
    }
}

/// Two requests have different names, whatever the case of their letters.
pub proof fn law_request_names_differ(p: Request, q: Request)
    ensures
        p != q ==> p.text() != q.text(),
        p != q ==> ascii_lowercase(p.text()) != ascii_lowercase(q.text()),
{
    reveal_strlit("left_click");
    reveal_strlit("right_click");
    reveal_strlit("middle_click");
    reveal_strlit("double_click");
    reveal_strlit("warp");
    reveal_strlit("panel");
    let (a, b) = (ascii_lowercase(p.text()), ascii_lowercase(q.text()));
    if p != q {
        assert(a.len() == p.text().len() && b.len() == q.text().len());
        assert(a[0] != b[0] || a.len() != b.len());
        assert(p.text()[0] != q.text()[0] || p.text().len() != q.text().len());
    }
}

// ---- reports ----

/// ` at (x, y)`.
pub open spec fn point_text(at: (i32, i32)) -> Seq<char> {
    " at ("@ + decimal(at.0 as int) + ", "@ + decimal(at.1 as int) + ")"@
}

fn push_point(s: &mut String, at: (i32, i32))
    ensures
        final(s)@ == old(s)@ + point_text(at),
{
    s.append(" at (");
    push_decimal(s, at.0 as i64);
    s.append(", ");
    push_decimal(s, at.1 as i64);
    s.append(")");
    assert(s@ =~= old(s)@ + point_text(at));
}

/// An element by its role and its quoted name.
pub open spec fn element_text(element: Element) -> Seq<char> {
    subject_text(role_name(element.role.number()), quoted(element.name@))
}

/// A role's name and a quoted name.
pub open spec fn subject_text(role: Seq<char>, quoted_name: Seq<char>) -> Seq<char> {
    role + " "@ + quoted_name
}

/// A role's name and a quoted name.
pub fn subject(role: &str, quoted_name: &str) -> (r: String)
    ensures
        r@ == subject_text(role@, quoted_name@),
{
    let mut r = role.to_owned();
    r.append(" ");
    r.append(quoted_name);
    r
}

/// An element by its role and its quoted name.
fn describe(element: &Element) -> (r: String)
    ensures
        r@ == element_text(*element),
{
    subject(element.role.name().as_str(), quote(element.name.as_str()).as_str())
}

/// How an activation was carried out (for reporting).
#[derive(Debug)]
pub enum Dispatched {
    /// AT-SPI `Action.DoAction` on the named verb.
    Action(String),
    /// Synthetic pointer `mode` at output-local physical `(x, y)`.
    Pointer { mode: Mode, at: (i32, i32) },
}

impl Dispatched {
    pub open spec fn text(self) -> Seq<char> {
        self.worded(
            match self {
                Dispatched::Action(verb) => quoted(verb@),
                Dispatched::Pointer { .. } => seq![],
            },
        )
    }

    /// The report with the quoted verb of an action given.
    pub open spec fn worded(self, quoted_verb: Seq<char>) -> Seq<char> {
        match self {
            Dispatched::Action(_) => "AT-SPI action "@ + quoted_verb,
            Dispatched::Pointer { mode, at } => "synthetic "@ + mode.text() + point_text(at),
        }
    }

    /// The report with the quoted verb of an action given.
    pub fn render(&self, quoted_verb: &str) -> (r: String)
        ensures
            r@ == self.worded(quoted_verb@),
    {
        let mut r = String::new();
        match self {
            Dispatched::Action(_) => {
                r.append("AT-SPI action ");
                r.append(quoted_verb);
            },
            Dispatched::Pointer { mode, at } => {
                r.append("synthetic ");
                r.append(mode.as_str());
                push_point(&mut r, *at);
            },
        }
        assert(r@ =~= self.worded(quoted_verb@));
        r
    }

    pub fn to_string(&self) -> (r: String)
        ensures
            r@ == self.text(),
    {
        let verb = match self {
            Dispatched::Action(verb) => quote(verb.as_str()),
            Dispatched::Pointer { .. } => String::new(),
        };
        assert(self is Pointer ==> verb@ =~= seq![]);
        self.render(verb.as_str())
    }
}

/// How a panel interaction ended.
#[derive(Debug)]
pub enum PanelOutcome {
    /// Dismissed without acting on an element (scrolling/warping may still
    /// have happened).
    Dismissed { scrolls: u32, warped: bool },
    /// Left-clicked (possibly double-clicked) the selected element.
    Clicked { element: Element, at: (i32, i32), double: bool },
    /// Right-clicked the selected element.
    RightClicked { element: Element, at: (i32, i32) },
}

impl PanelOutcome {
    pub open spec fn text(self) -> Seq<char> {
        self.worded(
            match self {
                PanelOutcome::Dismissed { .. } => seq![],
                PanelOutcome::Clicked { element, .. } => element_text(element),
                PanelOutcome::RightClicked { element, .. } => element_text(element),
            },
        )
    }

    /// The report with the description of the element given.
    pub open spec fn worded(self, element: Seq<char>) -> Seq<char> {
        match self {
            PanelOutcome::Dismissed { scrolls, warped } => "panel dismissed (scrolls: "@ + decimal(
                scrolls as int,
            ) + ", warped: "@ + (if warped {
                "true"@
            } else {
                "false"@
            }) + ")"@,
            PanelOutcome::Clicked { at, double, .. } => "panel: "@ + (if double {
                "double-clicked "@
            } else {
                "clicked "@
            }) + element + point_text(at),
            PanelOutcome::RightClicked { at, .. } => "panel: right-clicked "@ + element
                + point_text(at),
        }
    }

    /// The report with the description of the element given.
    pub fn render(&self, element: &str) -> (r: String)
        ensures
            r@ == self.worded(element@),
    {
        let mut r = String::new();
        match self {
            PanelOutcome::Dismissed { scrolls, warped } => {
                r.append("panel dismissed (scrolls: ");
                push_decimal(&mut r, *scrolls as i64);
                r.append(", warped: ");
                r.append(if *warped {
                    "true"
                } else {
                    "false"
                });
                r.append(")");
            },
            PanelOutcome::Clicked { at, double, .. } => {
                r.append("panel: ");
                r.append(if *double {
                    "double-clicked "
                } else {
                    "clicked "
                });
                r.append(element);
                push_point(&mut r, *at);
            },
            PanelOutcome::RightClicked { at, .. } => {
                r.append("panel: right-clicked ");
                r.append(element);
                push_point(&mut r, *at);
            },
        }
        assert(r@ =~= self.worded(element@));
        r
    }

    pub fn to_string(&self) -> (r: String)
        ensures
            r@ == self.text(),
    {
        let element = match self {
            PanelOutcome::Dismissed { .. } => String::new(),
            PanelOutcome::Clicked { element, .. } => describe(element),
            PanelOutcome::RightClicked { element, .. } => describe(element),
        };
        assert(self is Dismissed ==> element@ =~= seq![]);
        self.render(element.as_str())
    }
}

/// The outcome of one activation, renderable as a single status line (printed
/// by `oneshot`, sent over the socket by the daemon).
#[derive(Debug)]
pub enum Activation {
    /// The focused window exposed no actionable elements.
    NoElements,
    /// The user dismissed the overlay (`Esc`) without selecting.
    Cancelled,
    /// A target was selected and dispatched.
    Activated { element: Element, how: Dispatched },
    /// A panel interaction finished.
    Panel(PanelOutcome),
}

/// The report of a selected target, from the descriptions of the element and
/// of what was done.
pub open spec fn selected_text(element: Seq<char>, path: Seq<char>, how: Seq<char>) -> Seq<char> {
    "selected "@ + element + " ("@ + path + "); dispatched: "@ + how
}

/// The report of a selected target, from the descriptions of the element and
/// of what was done.
pub fn report_selected(element: &str, path: &str, how: &str) -> (r: String)
    ensures
        r@ == selected_text(element@, path@, how@),
{
    let mut r = "selected ".to_owned();
    r.append(element);
    r.append(" (");
    r.append(path);
    r.append("); dispatched: ");
    r.append(how);
    r
}

impl Activation {
    pub open spec fn text(self) -> Seq<char> {
        match self {
            Activation::NoElements => "no actionable elements found"@,
            Activation::Cancelled => "cancelled"@,
            Activation::Activated { element, how } => selected_text(
                element_text(element),
                element.object.path@,
                how.text(),
            ),
            Activation::Panel(outcome) => outcome.text(),
        }
    }

    pub fn to_string(&self) -> (r: String)
        ensures
            r@ == self.text(),
    {
        match self {
            Activation::NoElements => "no actionable elements found".to_owned(),
            Activation::Cancelled => "cancelled".to_owned(),
            Activation::Activated { element, how } => report_selected(
                describe(element).as_str(),
                element.object.path.as_str(),
                how.to_string().as_str(),
            ),
            Activation::Panel(outcome) => outcome.to_string(),
        }
    }
}

// ---- a gesture ----

/// What a gesture activation needs next.
#[derive(Debug)]
pub enum GestureStep {
    /// Show the hints and let the user select one.
    Select(Vec<Hint>),
    /// Try to activate the hint's element through its own actions.
    TryAction(Hint),
    /// Synthesize the gesture at output-local physical `at`.
    Point { hint: Hint, at: (i32, i32) },
    /// The activation is over.
    Done(Activation),
}

/// The gesture is synthesized at the centre of the hint.
pub open spec fn points_at(step: GestureStep, hint: Hint) -> bool {
    &&& step matches GestureStep::Point { hint: h, at }
    &&& h == hint
    &&& (at.0 as int, at.1 as int) == hint.rect.middle()
}

/// A gesture activation begins with the located elements: they are labelled
/// and shown, unless there are none.
pub fn begin_gesture(located: &[(Element, PhysicalRect)], style: HintStyle) -> (r: GestureStep)
    requires
        located@.len() + demoted(located@.len()) <= usize::MAX,
    ensures
        located@.len() == 0 ==> r == GestureStep::Done(Activation::NoElements),
        located@.len() > 0 ==> {
            &&& r matches GestureStep::Select(hints)
            &&& carried(hints@, located@)
            &&& labels_of(hints@) == short_labels(located@.len())
        },
{
    let hints = assign(located, style);
    if hints.len() == 0 {
        GestureStep::Done(Activation::NoElements)
    } else {
        GestureStep::Select(hints)
    }
}

/// What a selection, or none, leads to. A left click prefers the element's own
/// action (no cursor warp, hits the real target). Every other mode is an
/// inherently pointer-level gesture, so it goes straight to the pointer.
pub fn dispatch_selected(selected: Option<Hint>, mode: Mode) -> (r: GestureStep)
    requires
        selected matches Some(hint) ==> mode == Mode::LeftClick || hint.rect.has_center(),
    ensures
        match selected {
            None => r == GestureStep::Done(Activation::Cancelled),
            Some(hint) => if mode == Mode::LeftClick {
                r == GestureStep::TryAction(hint)
            } else {
                points_at(r, hint)
            },
        },
{
    match selected {
        None => GestureStep::Done(Activation::Cancelled),
        Some(hint) => {
            if mode == Mode::LeftClick {
                GestureStep::TryAction(hint)
            } else {
                let at = hint.rect.center();
                GestureStep::Point { hint, at }
            }
        },
    }
}

/// What follows an attempt to use the element's own actions: with a verb that
/// was performed the activation is over, otherwise the pointer takes over.
pub fn dispatch_tried(hint: Hint, verb: Option<String>) -> (r: GestureStep)
    requires
        verb is None ==> hint.rect.has_center(),
    ensures
        match verb {
            Some(verb) => r == GestureStep::Done(
                Activation::Activated { element: hint.element, how: Dispatched::Action(verb) },
            ),
            None => points_at(r, hint),
        },
{
    match verb {
        Some(verb) => GestureStep::Done(
            Activation::Activated { element: hint.element, how: Dispatched::Action(verb) },
        ),
        None => {
            let at = hint.rect.center();
            GestureStep::Point { hint, at }
        },
    }
}

/// The outcome once the gesture was synthesized.
pub fn dispatch_pointed(hint: Hint, mode: Mode, at: (i32, i32)) -> (r: GestureStep)
    ensures
        r == GestureStep::Done(
            Activation::Activated {
                element: hint.element,
                how: Dispatched::Pointer { mode, at },
            },
        ),
{
    GestureStep::Done(
        Activation::Activated { element: hint.element, how: Dispatched::Pointer { mode, at } },
    )
}

// ---- the panel ----

/// Located elements, degrading a missing frame or a failed scan to none.
pub fn located_or_empty(found: Option<Vec<(Element, PhysicalRect)>>) -> (r: Vec<
    (Element, PhysicalRect),
>)
    ensures
        r@ == match found {
            Some(located) => located@,
            None => seq![],
        },
{
    match found {
        Some(located) => located,
        None => Vec::new(),
    }
}

/// What can happen while the panel is open.
#[derive(Debug)]
pub enum PanelEvent {
    /// The interaction ended.
    Ended(PanelOutcome),
    /// The panel asks for a re-scan of the window.
    Rescan,
    /// The panel can ask no more: it is tearing down.
    RescanClosed,
}

/// What to do about it.
#[derive(Debug)]
pub enum PanelStep {
    /// The activation is over.
    Done(Activation),
    /// Scan the window again, label what is found, and reply with it.
    Reply,
    /// Wait for the next event.
    Wait,
}

/// Waiting for the panel. Scrolling invalidates element positions; the panel
/// then asks for a re-scan.
#[derive(Debug)]
pub struct PanelWait {
    /// Whether requests for a re-scan are still listened for.
    pub rescan_open: bool,
}

impl PanelWait {
    pub fn new() -> (r: PanelWait)
        ensures
            r.rescan_open,
    {
        PanelWait { rescan_open: true }
    }

    /// React to an event. A request for a re-scan comes only while requests
    /// are listened for.
    pub fn on_event(&mut self, event: PanelEvent) -> (r: PanelStep)
        requires
            event is Rescan ==> old(self).rescan_open,
        ensures
            r == match event {
                PanelEvent::Ended(outcome) => PanelStep::Done(Activation::Panel(outcome)),
                PanelEvent::Rescan => PanelStep::Reply,
                PanelEvent::RescanClosed => PanelStep::Wait,
            },
            final(self).rescan_open == (old(self).rescan_open && !(event is RescanClosed)),
    {
        match event {
            PanelEvent::Ended(outcome) => PanelStep::Done(Activation::Panel(outcome)),
            PanelEvent::Rescan => PanelStep::Reply,
            PanelEvent::RescanClosed => {
                self.rescan_open = false;
                PanelStep::Wait
            },
        }
    }
}

// ---- what is reported ----

/// The names of the requests, and of the gestures that go by the same ones.
pub proof fn law_names_of_requests()
    ensures
        Request::LeftClick.text() == "left_click"@ && Mode::LeftClick.text() == "left_click"@,
        Request::RightClick.text() == "right_click"@ && Mode::RightClick.text() == "right_click"@,
        Request::MiddleClick.text() == "middle_click"@ && Mode::MiddleClick.text()
            == "middle_click"@,
        Request::DoubleClick.text() == "double_click"@ && Mode::DoubleClick.text()
            == "double_click"@,
        Request::Warp.text() == "warp"@ && Mode::Warp.text() == "warp"@,
        Request::Panel.text() == "panel"@,
        HintStyle::Short.text() == "short"@,
{
}

/// A point is reported across first and then down.
pub proof fn law_points_are_reported_across_then_down(x: i32, y: i32)
    ensures
        ({
            let (t, a, b) = (point_text((x, y)), decimal(x as int), decimal(y as int));
            &&& t.len() == a.len() + b.len() + 8
            &&& t.subrange(5, 5 + a.len() as int) == a
            &&& t.subrange(7 + a.len() as int, 7 + a.len() as int + b.len()) == b
            &&& t.take(5) == " at ("@ && t.last() == ')'
        }),
{
    reveal_strlit(" at (");
    reveal_strlit(", ");
    reveal_strlit(")");
    let (t, a, b) = (point_text((x, y)), decimal(x as int), decimal(y as int));
    assert(t.take(5) =~= " at ("@);
    assert(t.subrange(5, 5 + a.len() as int) =~= a);
    assert(t.subrange(7 + a.len() as int, 7 + a.len() as int + b.len()) =~= b);
}

/// A report of a gesture names it and ends with its point; one of an action ends
/// with the verb.
pub proof fn law_reports_say_what_was_done(mode: Mode, at: (i32, i32), verb: String, q: Seq<char>)
    ensures
        (Dispatched::Pointer { mode, at }).worded(q) == "synthetic "@ + mode.text() + point_text(at),
        Dispatched::Action(verb).worded(q) == "AT-SPI action "@ + q,
        (Dispatched::Pointer { mode, at }).text() == (Dispatched::Pointer { mode, at }).worded(q),
        Dispatched::Action(verb).text() == "AT-SPI action "@ + quoted(verb@),
{
}

/// A report of a panel interaction: single, double and right clicks are told
/// apart, and each names the element and ends with its point.
pub proof fn law_panel_reports(element: Element, at: (i32, i32), e: Seq<char>, scrolls: u32)
    ensures
        (PanelOutcome::Clicked { element, at, double: false }).worded(e) == "panel: clicked "@ + e
            + point_text(at),
        (PanelOutcome::Clicked { element, at, double: true }).worded(e)
            == "panel: double-clicked "@ + e + point_text(at),
        (PanelOutcome::RightClicked { element, at }).worded(e) == "panel: right-clicked "@ + e
            + point_text(at),
        (PanelOutcome::Dismissed { scrolls, warped: true }).worded(e)
            == "panel dismissed (scrolls: "@ + decimal(scrolls as int) + ", warped: true)"@,
        (PanelOutcome::Dismissed { scrolls, warped: false }).worded(e)
            == "panel dismissed (scrolls: "@ + decimal(scrolls as int) + ", warped: false)"@,
        (PanelOutcome::Clicked { element, at, double: true }).text() == (PanelOutcome::Clicked {
            element,
            at,
            double: true,
        }).worded(element_text(element)),
        (PanelOutcome::RightClicked { element, at }).text() == (PanelOutcome::RightClicked {
            element,
            at,
        }).worded(element_text(element)),
{
    reveal_strlit("panel: ");
    reveal_strlit("clicked ");
    reveal_strlit("double-clicked ");
    reveal_strlit("panel: clicked ");
    reveal_strlit("panel: double-clicked ");
    reveal_strlit(", warped: ");
    reveal_strlit("true");
    reveal_strlit("false");
    reveal_strlit(")");
    reveal_strlit(", warped: true)");
    reveal_strlit(", warped: false)");
    assert("panel: "@ + "clicked "@ =~= "panel: clicked "@);
    assert("panel: "@ + "double-clicked "@ =~= "panel: double-clicked "@);
    let n = "panel dismissed (scrolls: "@ + decimal(scrolls as int);
    assert(n + ", warped: "@ + "true"@ + ")"@ =~= n + ", warped: true)"@);
    assert(n + ", warped: "@ + "false"@ + ")"@ =~= n + ", warped: false)"@);
}

/// An activation is reported with the element's role, its quoted name and its
/// path, in this order, and then what was done.
pub proof fn law_activations_are_reported(element: Element, how: Dispatched, outcome: PanelOutcome)
    ensures
        (Activation::Activated { element, how }).text() == "selected "@ + role_name(
            element.role.number(),
        ) + " "@ + quoted(element.name@) + " ("@ + element.object.path@ + "); dispatched: "@
            + how.text(),
        Activation::Panel(outcome).text() == outcome.text(),
        Activation::NoElements.text() == "no actionable elements found"@,
        Activation::Cancelled.text() == "cancelled"@,
{
    let (r, q, p, h) = (
        role_name(element.role.number()),
        quoted(element.name@),
        element.object.path@,
        how.text(),
    );
    assert("selected "@ + (r + " "@ + q) + " ("@ + p + "); dispatched: "@ + h =~= "selected "@ + r
        + " "@ + q + " ("@ + p + "); dispatched: "@ + h);
}

/// A gesture that points does so in the middle of its own hint: no further from
/// the one edge than from the other, by a pixel at most.
pub proof fn law_gestures_point_at_the_middle(step: GestureStep, hint: Hint)
    requires
        points_at(step, hint),
    ensures
        step matches GestureStep::Point { hint: h, at } && h == hint && (hint.rect.w >= 0 ==> 0
            <= hint.rect.w - 2 * (at.0 - hint.rect.x) <= 1) && (hint.rect.h >= 0 ==> 0 <= hint.rect.h
            - 2 * (at.1 - hint.rect.y) <= 1),
{
}

} // verus!
