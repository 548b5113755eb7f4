use peck::pointer::{
    click, scroll, warp, Mode, PointerEvent, BTN_LEFT, BTN_MIDDLE, BTN_RIGHT,
};

#[test]
fn gestures_click_their_buttons() {
    assert_eq!((BTN_LEFT, BTN_RIGHT, BTN_MIDDLE), (272, 273, 274));
    assert_eq!(Mode::default(), Mode::LeftClick);
    assert_eq!(Mode::LeftClick.clicks(), [BTN_LEFT]);
    assert_eq!(Mode::RightClick.clicks(), [BTN_RIGHT]);
    assert_eq!(Mode::MiddleClick.clicks(), [BTN_MIDDLE]);
    assert_eq!(Mode::DoubleClick.clicks(), [BTN_LEFT, BTN_LEFT]);
    assert!(Mode::Warp.clicks().is_empty());
    assert_eq!(Mode::Warp.to_string(), "warp");
}

#[test]
fn warps_stay_on_the_output() {
    let motion = |x, y| PointerEvent::Motion { time: 7, x, y, width: 1920, height: 1080 };
    let at = |x, y| warp(7, x, y, (1920, 1080));
    assert_eq!(at(100, 200), [motion(100, 200), PointerEvent::Frame]);
    assert_eq!(at(-5, 5000), [motion(0, 1079), PointerEvent::Frame]);
    assert_eq!(at(1920, -1), [motion(1919, 0), PointerEvent::Frame]);
    assert_eq!(
        warp(0, 3, 3, (0, 0))[0],
        PointerEvent::Motion { time: 0, x: 0, y: 0, width: 0, height: 0 }
    );
}

#[test]
fn clicks_press_and_release() {
    assert_eq!(
        click(9, BTN_RIGHT),
        [
            PointerEvent::Button { time: 9, button: BTN_RIGHT, pressed: true },
            PointerEvent::Frame,
            PointerEvent::Button { time: 10, button: BTN_RIGHT, pressed: false },
            PointerEvent::Frame,
        ]
    );
}

#[test]
fn scrolls_come_from_a_wheel() {
    assert_eq!(
        scroll(3, true, -15),
        [
            PointerEvent::WheelSource,
            PointerEvent::Axis { time: 3, horizontal: true, amount: -15 },
            PointerEvent::Frame,
        ]
    );
}
