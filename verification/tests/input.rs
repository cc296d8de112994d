use ihs_wl_server::action::Action;
use ihs_wl_server::error::IhsWlResult;
use ihs_wl_server::input::{
    check_key, time_ms, touch_input, AxisSource, Pointer, PointerEvent, PointerKind, PointerStep,
    Scroll, TouchEvent, TouchKind, TouchStep, REPEAT_DELAY_MS, REPEAT_RATE_HZ,
};
use ihs_wl_server::params::ViewParams;
use ihs_wl_server::state::State;

const BTN_LEFT: u32 = 0x110;
const KEY_A: u32 = 30;

fn pointer_event(kind: u32, x: f64, y: f64) -> PointerEvent {
    PointerEvent {
        kind,
        x: x.to_bits(),
        y: y.to_bits(),
        button: 0,
        pressed: 0,
        axis_source: 0,
        axis_x: 0f64.to_bits(),
        axis_y: 0f64.to_bits(),
        value120_x: 0,
        value120_y: 0,
        time_us: 1_000,
    }
}

fn touch_event(kind: u32, slot: i32, x: f64, y: f64) -> TouchEvent {
    TouchEvent {
        kind,
        slot,
        x: x.to_bits(),
        y: y.to_bits(),
        time_us: 1_000,
    }
}

/// A toplevel shown by view 1.
fn shown() -> State {
    let mut s = State::new();
    let id = s.add_toplevel(1, Some(7));
    let mut out = Vec::new();
    s.toplevel_commit(id, &mut out);
    s.view_created(1, ViewParams::default(), Some((640, 480)), &mut out);
    s
}

#[test]
fn pointer_enters_moves_clicks_scrolls_and_leaves() {
    let mut p = Pointer { left: false };
    let surface = Some(5);
    let steps = p.pointer_input(
        PointerKind::Motion,
        pointer_event(1, 10.5, 20.0),
        false,
        false,
    );
    assert_eq!(steps, vec![PointerStep::MoveUnder, PointerStep::Frame]);
    let steps = p.pointer_input(
        PointerKind::Motion,
        pointer_event(1, 30.0, 40.0),
        true,
        false,
    );
    assert_eq!(steps, vec![PointerStep::MoveUnder, PointerStep::Frame]);

    let mut ev = pointer_event(4, 30.0, 40.0);
    ev.axis_y = 15f64.to_bits();
    ev.value120_y = 120;
    assert_eq!(
        p.pointer_input(PointerKind::Axis, ev, true, true),
        vec![
            PointerStep::Scroll(Scroll {
                source: AxisSource::Wheel,
                value_x: None,
                value120_x: None,
                value_y: Some(15f64.to_bits()),
                value120_y: Some(120)
            }),
            PointerStep::Frame
        ]
    );

    // Leaving mid-click keeps the surface until the release.
    let mut press = pointer_event(3, 30.0, 40.0);
    press.button = BTN_LEFT;
    press.pressed = 1;
    assert_eq!(
        p.pointer_input(PointerKind::Button, press, true, true),
        vec![
            PointerStep::Button {
                button: BTN_LEFT,
                pressed: true
            },
            PointerStep::Settle,
            PointerStep::Frame
        ]
    );
    assert_eq!(p.settle(true, surface, surface), None);
    let steps = p.pointer_input(PointerKind::Leave, pointer_event(2, 0.0, 0.0), true, false);
    assert_eq!(steps, vec![PointerStep::MoveOff, PointerStep::Frame]);
    assert!(p.left);
    // Dragged out past the view, then released: the focus leaves with it.
    let steps = p.pointer_input(
        PointerKind::Motion,
        pointer_event(1, 700.0, 40.0),
        true,
        false,
    );
    assert_eq!(steps, vec![PointerStep::MoveUnder, PointerStep::Frame]);
    let mut release = pointer_event(3, 700.0, 40.0);
    release.button = BTN_LEFT;
    assert_eq!(
        p.pointer_input(PointerKind::Button, release, true, true),
        vec![
            PointerStep::Button {
                button: BTN_LEFT,
                pressed: false
            },
            PointerStep::Settle,
            PointerStep::Frame
        ]
    );
    assert_eq!(p.settle(false, None, surface), Some(None));
}

#[test]
fn a_release_after_leaving_leaves_the_surface() {
    let mut p = Pointer { left: false };
    p.pointer_input(PointerKind::Leave, pointer_event(2, 0.0, 0.0), true, false);
    // Whatever is at the place it left from.
    assert_eq!(p.settle(false, Some(5), Some(5)), Some(None));
    assert_eq!(p.settle(false, Some(5), None), None);
    // Leaving one view may come after entering the next.
    let mut p = Pointer { left: false };
    let steps = p.pointer_input(PointerKind::Leave, pointer_event(2, 0.0, 0.0), false, false);
    assert!(steps.is_empty());
    assert!(!p.left);
    // The click ended over another surface.
    assert_eq!(p.settle(false, Some(6), Some(5)), Some(Some(6)));
    assert_eq!(p.settle(false, Some(5), Some(5)), None);
}

#[test]
fn touch_stays_with_the_surface_it_went_down_on() {
    let kinds = [
        (0, 3, TouchStep::DownUnder { slot: 3 }),
        (4, 0, TouchStep::Frame),
        (2, 3, TouchStep::Move { slot: 3 }),
        (4, 0, TouchStep::Frame),
        (1, 3, TouchStep::Up { slot: 3 }),
        (3, 0, TouchStep::Cancel),
    ];
    for (kind, slot, want) in kinds {
        let kind = touch_event(kind, slot, 12.0, 34.0).check(true).unwrap();
        assert_eq!(touch_input(kind, slot), want);
    }
}

#[test]
fn keys_follow_the_focused_view() {
    let mut s = shown();
    // Not focused yet: dropped.
    assert_eq!(s.key_input(1, KEY_A), None);
    let mut out = Vec::new();
    s.focus_input(1, true, &mut out);
    assert_eq!(
        out,
        vec![Action::ReleaseKeys, Action::KeyboardFocus(Some(1))]
    );
    assert_eq!((REPEAT_RATE_HZ, REPEAT_DELAY_MS), (25, 600));
    // xkb keycodes are evdev's plus 8.
    assert_eq!(s.key_input(1, KEY_A), Some(38));
    assert_eq!(s.key_input(2, KEY_A), None);

    // Out of the scene, the client loses focus; back in, it has it again.
    let mut out = Vec::new();
    s.view_suspended(1, true, 1, &mut out);
    assert_eq!(s.keyboard_target(), None);
    s.view_suspended(1, false, 2, &mut out);
    assert_eq!(s.keyboard_target(), Some(1));

    // A key held as focus goes is forgotten.
    let mut out = Vec::new();
    s.focus_input(1, false, &mut out);
    assert!(out.contains(&Action::ReleaseKeys));
    assert!(out.contains(&Action::KeyboardFocus(None)));
    let mut out = Vec::new();
    s.focus_input(1, true, &mut out);
    assert!(out.contains(&Action::ReleaseKeys));

    // Taking focus from a view that lacks it changes nothing.
    let mut out = Vec::new();
    s.focus_input(2, false, &mut out);
    assert!(out.is_empty());
    assert_eq!(s.keyboard_target(), Some(1));
    s.focus_input(1, false, &mut out);
    assert_eq!(s.keyboard_target(), None);
}

#[test]
fn malformed_input_is_rejected() {
    let invalid = IhsWlResult::ErrInvalid.code();
    let ev = pointer_event(99, 1.0, 1.0);
    assert_eq!(ev.check(true).unwrap_err().code, invalid);
    let mut ev = pointer_event(1, f64::NAN, 1.0);
    assert_eq!(ev.check(true).unwrap_err().code, invalid);
    ev.x = 1f64.to_bits();
    let short = ev.check(false).unwrap_err();
    assert_eq!(short.code, invalid);
    assert_eq!(short.message, "pointer event: struct_size too small");
    assert_eq!(ev.check(true), Ok(PointerKind::Motion));
    ev.axis_x = f64::NEG_INFINITY.to_bits();
    assert_eq!(ev.check(true).unwrap_err().code, invalid);

    let ev = touch_event(0, -1, 0.0, 0.0);
    assert_eq!(ev.check(true).unwrap_err().code, invalid);
    let ev = touch_event(5, 0, 0.0, 0.0);
    assert_eq!(ev.check(true).unwrap_err().code, invalid);
    let ev = touch_event(0, 0, 0.0, f64::INFINITY);
    assert_eq!(ev.check(true).unwrap_err().code, invalid);
    let ev = touch_event(0, 0, 0.0, 0.0);
    assert_eq!(ev.check(false).unwrap_err().code, invalid);
    assert_eq!(ev.check(true), Ok(TouchKind::Down));
    assert_eq!(check_key(0x300).unwrap_err().code, invalid);
    assert_eq!(check_key(0x2ff), Ok(()));
}

#[test]
fn times_are_milliseconds_and_wrap() {
    assert_eq!(time_ms(1_999), 1);
    assert_eq!(time_ms(0x1_0000_0000 * 1_000 + 5_000), 5);
}
