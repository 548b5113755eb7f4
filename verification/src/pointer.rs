//! Synthetic pointer gestures: which events make up a warp, a click, a scroll,
//! and a whole gesture.

use vstd::prelude::*;

verus! {

/// Linux input event codes for the mouse buttons.
pub const BTN_LEFT: u32 = 0x110;
pub const BTN_RIGHT: u32 = 0x111;
pub const BTN_MIDDLE: u32 = 0x112;

/// A pointer gesture peck can synthesize on a target.
#[derive(Debug, Clone, Copy, PartialEq, Eq, Structural)]
pub enum Mode {
    /// Synthesize a left click (default). Prefers the element's semantic
    /// AT-SPI action when one is available; this is the only mode that does.
    LeftClick,
    /// Synthesize a right click (e.g. to open a context menu).
    RightClick,
    /// Synthesize a middle click.
    MiddleClick,
    /// Synthesize a double left click.
    DoubleClick,
    /// Warp the cursor to the target without clicking.
    Warp,
}

impl Default for Mode {
    fn default() -> (r: Mode)
        ensures
            r == Mode::LeftClick,
    {
        Mode::LeftClick
    }
}

impl Mode {
    /// The name of the gesture.
    pub open spec fn text(self) -> Seq<char> {
        match self {
            Mode::LeftClick => "left_click"@,
            Mode::RightClick => "right_click"@,
            Mode::MiddleClick => "middle_click"@,
            Mode::DoubleClick => "double_click"@,
            Mode::Warp => "warp"@,
        }
    }

    pub fn as_str(self) -> (r: &'static str)
        ensures
            r@ == self.text(),
    {
        match self {
            Mode::LeftClick => "left_click",
            Mode::RightClick => "right_click",
            Mode::MiddleClick => "middle_click",
            Mode::DoubleClick => "double_click",
            Mode::Warp => "warp",
        }
    }

    /// The name of the gesture, as an owned string.
    pub fn to_string(&self) -> (r: String)
        ensures
            r@ == self.text(),
    {
        self.as_str().to_owned()
    }

    /// The buttons that the gesture clicks, in order, once the cursor is at the
    /// target.
    pub open spec fn buttons(self) -> Seq<u32> {
        match self {
            Mode::Warp => seq![],
            Mode::LeftClick => seq![BTN_LEFT],
            Mode::RightClick => seq![BTN_RIGHT],
            Mode::MiddleClick => seq![BTN_MIDDLE],
            Mode::DoubleClick => seq![BTN_LEFT, BTN_LEFT],
        }
    }

    /// The buttons that the gesture clicks, in order, once the cursor is at the
    /// target.
    pub fn clicks(self) -> (r: Vec<u32>)
        ensures
            r@ == self.buttons(),
    {
        match self {
            Mode::Warp => vec![],
            Mode::LeftClick => vec![BTN_LEFT],
            Mode::RightClick => vec![BTN_RIGHT],
            Mode::MiddleClick => vec![BTN_MIDDLE],
            Mode::DoubleClick => vec![BTN_LEFT, BTN_LEFT],
        }
    }
}

/// One event of the virtual pointer. `time` is in milliseconds.
#[derive(Debug, Clone, Copy, PartialEq, Eq, Structural)]
pub enum PointerEvent {
    /// Move to (`x`, `y`) of a space that is `width` by `height`.
    Motion { time: u32, x: u32, y: u32, width: u32, height: u32 },
    /// Press or release a button.
    Button { time: u32, button: u32, pressed: bool },
    /// What follows comes from a wheel.
    WheelSource,
    /// Scroll by `amount`; positive is down or right.
    Axis { time: u32, horizontal: bool, amount: i32 },
    /// The events so far belong together.
    Frame,
}

/// The coordinate on an output of that extent that is nearest to `n`.
pub open spec fn on_output(n: int, extent: int) -> int {
    if n < 0 || extent == 0 {
        0
    } else if n >= extent {
        extent - 1
    } else {
        n
    }
}

fn clamp_to_output(n: i32, extent: u16) -> (r: u32)
    ensures
        r == on_output(n as int, extent as int),
{
    if n < 0 || extent == 0 {
        0
    } else if n as u32 >= extent as u32 {
        extent as u32 - 1
    } else {
        n as u32
    }
}

/// The events that move the cursor to output-local physical (`x`, `y`).
pub open spec fn warp_events(time: u32, x: i32, y: i32, extent: (u16, u16)) -> Seq<PointerEvent> {
    seq![
        PointerEvent::Motion {
            time,
            x: on_output(x as int, extent.0 as int) as u32,
            y: on_output(y as int, extent.1 as int) as u32,
            width: extent.0 as u32,
            height: extent.1 as u32,
        },
        PointerEvent::Frame,
    ]
}

/// Move the cursor to output-local physical `(x, y)`, clamped on-output.
pub fn warp(time: u32, x: i32, y: i32, extent: (u16, u16)) -> (r: Vec<PointerEvent>)
    ensures
        r@ == warp_events(time, x, y, extent),
{
    vec![
        PointerEvent::Motion {
            time,
            x: clamp_to_output(x, extent.0),
            y: clamp_to_output(y, extent.1),
            width: extent.0 as u32,
            height: extent.1 as u32,
        },
        PointerEvent::Frame,
    ]
}

/// A warp ends on the output, and a point that is on the output already is
/// where it ends.
pub proof fn law_warp_stays_on_output(x: i32, y: i32, extent: (u16, u16))
    requires
        extent.0 > 0,
        extent.1 > 0,
    ensures
        0 <= on_output(x as int, extent.0 as int) < extent.0,
        0 <= on_output(y as int, extent.1 as int) < extent.1,
        0 <= x < extent.0 ==> on_output(x as int, extent.0 as int) == x,
        0 <= y < extent.1 ==> on_output(y as int, extent.1 as int) == y,
{
}

/// The events of one click: a press, and a release a millisecond later.
pub open spec fn click_events(time: u32, button: u32) -> Seq<PointerEvent> {
    seq![
        PointerEvent::Button { time, button, pressed: true },
        PointerEvent::Frame,
        PointerEvent::Button { time: (time + 1) as u32, button, pressed: false },
        PointerEvent::Frame,
    ]
}

/// Press and release `button` as one click.
pub fn click(time: u32, button: u32) -> (r: Vec<PointerEvent>)
    requires
        time < u32::MAX,
    ensures
        r@ == click_events(time, button),
{
    vec![
        PointerEvent::Button { time, button, pressed: true },
        PointerEvent::Frame,
        PointerEvent::Button { time: time + 1, button, pressed: false },
        PointerEvent::Frame,
    ]
}

/// Scroll by `amount` (positive = down/right; 15 is one wheel detent),
/// delivered to whatever surface is under the cursor.
pub fn scroll(time: u32, horizontal: bool, amount: i32) -> (r: Vec<PointerEvent>)
    ensures
        r@ == seq![
            PointerEvent::WheelSource,
            PointerEvent::Axis { time, horizontal, amount },
            PointerEvent::Frame,
        ],
{
    vec![
        PointerEvent::WheelSource,
        PointerEvent::Axis { time, horizontal, amount },
        PointerEvent::Frame,
    ]
}

/// The buttons by their input event codes.
pub proof fn law_button_codes()
    ensures
        BTN_LEFT == 0x110,
        BTN_RIGHT == 0x111,
        BTN_MIDDLE == 0x112,
{
}

/// How often a gesture clicks, and with which button: a warp never, a double
/// click twice with the left one, and every other gesture once with its own.
pub proof fn law_gestures_click_their_button(mode: Mode, k: int)
    ensures
        mode.buttons().len() == if mode is Warp {
            0int
        } else if mode is DoubleClick {
            2
        } else {
            1
        },
        0 <= k < mode.buttons().len() ==> mode.buttons()[k] == if mode is RightClick {
            0x111int
        } else if mode is MiddleClick {
            0x112
        } else {
            0x110
        },
{
}

/// A warp is one motion to the point, measured against the size of the output,
/// and a frame. On either axis a point on the output is kept, one before it
/// becomes the first and one beyond it the last; an output without an extent has
/// the first alone.
pub proof fn law_warps_go_to_their_point(time: u32, x: i32, y: i32, extent: (u16, u16))
    ensures
        ({
            let events = warp_events(time, x, y, extent);
            &&& events.len() == 2
            &&& events[1] == PointerEvent::Frame
            &&& events[0] matches PointerEvent::Motion { time: t, x: px, y: py, width, height }
            &&& t == time && width == extent.0 && height == extent.1
            &&& x < 0 || extent.0 == 0 ==> px == 0
            &&& 0 <= x < extent.0 ==> px == x
            &&& x >= extent.0 > 0 ==> px == extent.0 - 1
            &&& y < 0 || extent.1 == 0 ==> py == 0
            &&& 0 <= y < extent.1 ==> py == y
            &&& y >= extent.1 > 0 ==> py == extent.1 - 1
        }),
{
}

/// A click presses and releases the same button, the release a millisecond
/// later, each in a frame of its own.
pub proof fn law_clicks_press_and_release(time: u32, button: u32)
    requires
        time < u32::MAX,
    ensures
        ({
            let events = click_events(time, button);
            &&& events.len() == 4
            &&& events[1] == PointerEvent::Frame && events[3] == PointerEvent::Frame
            &&& events[0] matches PointerEvent::Button { time: t, button: b, pressed }
            &&& t == time && b == button && pressed
            &&& events[2] matches PointerEvent::Button { time: u, button: c, pressed: down }
            &&& u == time + 1 && c == button && !down
        }),
{
}

} // verus!
