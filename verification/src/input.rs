//! Input from the platform-view controller, onto the seat.
//!
//! Every event is for one view, in view-local logical pixels. What is under a
//! point is hit-tested against the tree the view shows. Keys go to the view
//! last given focus, if it shows a toplevel and is in the scene.

use vstd::prelude::*;

use crate::action::Action;
use crate::error::{Error, IhsWlResult};
use crate::state::{State, StateModel, Step};
use vstd::string::StringExecFns;

verus! {

/// The shell's repeat timing: clients repeat keys themselves.
pub const REPEAT_DELAY_MS: i32 = 600;

pub const REPEAT_RATE_HZ: i32 = 25;

/// Highest evdev key code.
pub const KEY_MAX: u32 = 0x2ff;

/// xkb keycodes are evdev codes offset by 8.
pub const XKB_OFFSET: u32 = 8;

/// Protocol times are milliseconds that wrap.
pub open spec fn wrapped_ms(time_us: u64) -> u32 {
    ((time_us / 1000) % 0x1_0000_0000) as u32
}

/// A time in microseconds as protocol milliseconds.
pub fn time_ms(time_us: u64) -> (ms: u32)
    ensures
        ms == wrapped_ms(time_us),
{
    let ms: u64 = time_us / 1000;
    assert(ms as u32 == (ms % 0x1_0000_0000) as u32) by (bit_vector);
    ms as u32
}

/// What the pointer did.
#[derive(Clone, Copy, Debug, PartialEq, Eq, Structural)]
pub enum PointerKind {
    Enter,
    Motion,
    Leave,
    Button,
    Axis,
}

/// What a touch point did.
#[derive(Clone, Copy, Debug, PartialEq, Eq, Structural)]
pub enum TouchKind {
    Down,
    Up,
    Motion,
    Cancel,
    Frame,
}

/// The kind of pointer event that a number stands for.
pub open spec fn pointer_kind(n: u32) -> Option<PointerKind> {
    if n == 0 {
        Some(PointerKind::Enter)
    } else if n == 1 {
        Some(PointerKind::Motion)
    } else if n == 2 {
        Some(PointerKind::Leave)
    } else if n == 3 {
        Some(PointerKind::Button)
    } else if n == 4 {
        Some(PointerKind::Axis)
    } else {
        None
    }
}

/// The kind of touch event that a number stands for.
pub open spec fn touch_kind(n: u32) -> Option<TouchKind> {
    if n == 0 {
        Some(TouchKind::Down)
    } else if n == 1 {
        Some(TouchKind::Up)
    } else if n == 2 {
        Some(TouchKind::Motion)
    } else if n == 3 {
        Some(TouchKind::Cancel)
    } else if n == 4 {
        Some(TouchKind::Frame)
    } else {
        None
    }
}

/// A pointer event. Coordinates and scroll distances are doubles, by their
/// bits.
#[derive(Clone, Copy, Debug, PartialEq, Eq, Structural)]
pub struct PointerEvent {
    pub kind: u32,
    pub x: u64,
    pub y: u64,
    pub button: u32,
    pub pressed: u32,
    pub axis_source: u32,
    pub axis_x: u64,
    pub axis_y: u64,
    pub value120_x: i32,
    pub value120_y: i32,
    pub time_us: u64,
}

/// A touch event. Coordinates are doubles, by their bits.
#[derive(Clone, Copy, Debug, PartialEq, Eq, Structural)]
pub struct TouchEvent {
    pub kind: u32,
    pub slot: i32,
    pub x: u64,
    pub y: u64,
    pub time_us: u64,
}

/// Whether the double with these bits is a number that is not infinite: its
/// exponent, the 11 bits below the sign, is not all ones.
pub open spec fn finite(bits: u64) -> bool {
    bits % 0x8000_0000_0000_0000 < 0x7ff0_0000_0000_0000
}

/// Whether the double with these bits is zero, of either sign.
pub open spec fn zero(bits: u64) -> bool {
    bits % 0x8000_0000_0000_0000 == 0
}

fn is_finite(bits: u64) -> (yes: bool)
    ensures
        yes == finite(bits),
{
    bits % 0x8000_0000_0000_0000 < 0x7ff0_0000_0000_0000
}

impl PointerEvent {
    /// Its kind is known and all its numbers are finite.
    pub open spec fn valid(self) -> bool {
        &&& pointer_kind(self.kind) is Some
        &&& finite(self.x)
        &&& finite(self.y)
        &&& finite(self.axis_x)
        &&& finite(self.axis_y)
    }

    /// The event, checked; `size_ok` is whether the caller's structure is as
    /// large as this one.
    pub fn check(self, size_ok: bool) -> (r: Result<PointerKind, Error>)
        ensures
            match r {
                Ok(kind) => size_ok && self.valid() && pointer_kind(self.kind) == Some(kind),
                Err(e) => (!size_ok || !self.valid()) && e.code
                    == IhsWlResult::ErrInvalid.number() && e.message@ == if !size_ok {
                    "pointer event: struct_size too small"@
                } else {
                    "pointer event: bad kind or coordinates"@
                },
            },
    {
        if !size_ok {
            return Err(Error::invalid(String::from_str("pointer event: struct_size too small")));
        }
        let kind = match self.kind {
            0 => PointerKind::Enter,
            1 => PointerKind::Motion,
            2 => PointerKind::Leave,
            3 => PointerKind::Button,
            4 => PointerKind::Axis,
            _ => {
                return Err(
                    Error::invalid(String::from_str("pointer event: bad kind or coordinates")),
                );
            },
        };
        if is_finite(self.x) && is_finite(self.y) && is_finite(self.axis_x) && is_finite(
            self.axis_y,
        ) {
            Ok(kind)
        } else {
            Err(Error::invalid(String::from_str("pointer event: bad kind or coordinates")))
        }
    }
}

impl TouchEvent {
    /// Its kind is known, its slot is one, and its coordinates are finite.
    pub open spec fn valid(self) -> bool {
        touch_kind(self.kind) is Some && self.slot >= 0 && finite(self.x) && finite(self.y)
    }

    /// The event, checked.
    pub fn check(self, size_ok: bool) -> (r: Result<TouchKind, Error>)
        ensures
            match r {
                Ok(kind) => size_ok && self.valid() && touch_kind(self.kind) == Some(kind),
                Err(e) => (!size_ok || !self.valid()) && e.code
                    == IhsWlResult::ErrInvalid.number() && e.message@ == if !size_ok {
                    "touch event: struct_size too small"@
                } else {
                    "touch event: bad kind, slot or coordinates"@
                },
            },
    {
        if !size_ok {
            return Err(Error::invalid(String::from_str("touch event: struct_size too small")));
        }
        let kind = match self.kind {
            0 => TouchKind::Down,
            1 => TouchKind::Up,
            2 => TouchKind::Motion,
            3 => TouchKind::Cancel,
            4 => TouchKind::Frame,
            _ => {
                return Err(
                    Error::invalid(String::from_str("touch event: bad kind, slot or coordinates")),
                );
            },
        };
        if self.slot >= 0 && is_finite(self.x) && is_finite(self.y) {
            Ok(kind)
        } else {
            Err(Error::invalid(String::from_str("touch event: bad kind, slot or coordinates")))
        }
    }
}

/// A key code, checked.
pub fn check_key(evdev: u32) -> (r: Result<(), Error>)
    ensures
        r is Ok <==> evdev <= KEY_MAX,
        r is Ok <==> evdev < 0x300,
        r matches Err(e) ==> e.code == IhsWlResult::ErrInvalid.number() && e.message@
            == "key: not an evdev code"@,
{
    if evdev <= KEY_MAX {
        Ok(())
    } else {
        Err(Error::invalid(String::from_str("key: not an evdev code")))
    }
}

/// Where a scroll comes from.
#[derive(Clone, Copy, Debug, PartialEq, Eq, Structural)]
pub enum AxisSource {
    Wheel,
    Finger,
    Continuous,
    WheelTilt,
}

/// What a scroll source's number stands for.
pub open spec fn axis_source(n: u32) -> AxisSource {
    if n == 1 {
        AxisSource::Finger
    } else if n == 2 {
        AxisSource::Continuous
    } else if n == 3 {
        AxisSource::WheelTilt
    } else {
        AxisSource::Wheel
    }
}

/// A scroll: for each axis what is sent of it, if anything.
#[derive(Clone, Copy, Debug, PartialEq, Eq, Structural)]
pub struct Scroll {
    pub source: AxisSource,
    pub value_x: Option<u64>,
    pub value120_x: Option<i32>,
    pub value_y: Option<u64>,
    pub value120_y: Option<i32>,
}

/// A distance that is sent: not zero.
pub open spec fn sent(bits: u64) -> Option<u64> {
    if zero(bits) {
        None
    } else {
        Some(bits)
    }
}

/// A count of wheel clicks that is sent: not zero.
pub open spec fn sent120(v: i32) -> Option<i32> {
    if v == 0 {
        None
    } else {
        Some(v)
    }
}

/// What is done with the seat's pointer.
#[derive(Clone, Copy, Debug, PartialEq, Eq, Structural)]
pub enum PointerStep {
    /// Move it to the event's place, onto what is under it there.
    MoveUnder,
    /// Move it to the event's place, off every surface.
    MoveOff,
    Button { button: u32, pressed: bool },
    /// The button may have ended an implicit grab.
    Settle,
    Scroll(Scroll),
    /// The event is complete.
    Frame,
}

/// What is done with the seat's touch points.
#[derive(Clone, Copy, Debug, PartialEq, Eq, Structural)]
pub enum TouchStep {
    /// A point went down on what is under it.
    DownUnder { slot: u32 },
    Up { slot: u32 },
    /// The point stays with the surface it went down on.
    Move { slot: u32 },
    Cancel,
    Frame,
}

/// The seat's pointer.
#[derive(Clone, Copy, Debug, PartialEq, Eq, Structural)]
pub struct Pointer {
    /// It left its view mid-click: nothing is under it once the buttons are
    /// up.
    pub left: bool,
}

/// What an event of a kind does. `in_view` is whether the pointer is over a
/// surface of the event's view, `there` whether it is at the event's place.
pub open spec fn pointer_steps(
    kind: PointerKind,
    ev: PointerEvent,
    in_view: bool,
    there: bool,
) -> Seq<PointerStep> {
    match kind {
        PointerKind::Enter | PointerKind::Motion => seq![
            PointerStep::MoveUnder,
            PointerStep::Frame,
        ],
        // Leaving one view may come after entering the next.
        PointerKind::Leave => if in_view {
            seq![PointerStep::MoveOff, PointerStep::Frame]
        } else {
            Seq::empty()
        },
        PointerKind::Button => (if there && in_view {
            Seq::<PointerStep>::empty()
        } else {
            seq![PointerStep::MoveUnder]
        }) + seq![
            PointerStep::Button { button: ev.button, pressed: ev.pressed != 0 },
            PointerStep::Settle,
            PointerStep::Frame,
        ],
        PointerKind::Axis => seq![
            PointerStep::Scroll(
                Scroll {
                    source: axis_source(ev.axis_source),
                    value_x: sent(ev.axis_x),
                    value120_x: sent120(ev.value120_x),
                    value_y: sent(ev.axis_y),
                    value120_y: sent120(ev.value120_y),
                },
            ),
            PointerStep::Frame,
        ],
    }
}

/// Whether the pointer left its view mid-click, after an event of a kind.
pub open spec fn left_after(left: bool, kind: PointerKind, in_view: bool) -> bool {
    match kind {
        PointerKind::Enter | PointerKind::Motion => false,
        PointerKind::Leave => left || in_view,
        _ => left,
    }
}

fn nonzero(bits: u64) -> (v: Option<u64>)
    ensures
        v == sent(bits),
{
    if bits % 0x8000_0000_0000_0000 == 0 {
        None
    } else {
        Some(bits)
    }
}

fn nonzero120(v: i32) -> (s: Option<i32>)
    ensures
        s == sent120(v),
{
    if v == 0 {
        None
    } else {
        Some(v)
    }
}

impl Pointer {
    /// A pointer event for a view: what to do with the seat's pointer.
    pub fn pointer_input(
        &mut self,
        kind: PointerKind,
        ev: PointerEvent,
        in_view: bool,
        there: bool,
    ) -> (steps: Vec<PointerStep>)
        ensures
            steps@ == pointer_steps(kind, ev, in_view, there),
            final(self).left == left_after(old(self).left, kind, in_view),
            kind is Axis ==> steps@.len() == 2 && steps@[1] is Frame && (
            steps@[0] matches PointerStep::Scroll(sc) && (ev.axis_x == 0 || ev.axis_x
                == 0x8000_0000_0000_0000 ==> sc.value_x is None) && (ev.axis_x != 0 && ev.axis_x
                != 0x8000_0000_0000_0000 ==> sc.value_x == Some(ev.axis_x)) && (ev.axis_y == 0
                || ev.axis_y == 0x8000_0000_0000_0000 ==> sc.value_y is None) && (ev.axis_y != 0
                && ev.axis_y != 0x8000_0000_0000_0000 ==> sc.value_y == Some(ev.axis_y)) && (
            ev.value120_x == 0 <==> sc.value120_x is None) && (sc.value120_x matches Some(n)
                ==> n == ev.value120_x) && (ev.value120_y == 0 <==> sc.value120_y is None) && (
            sc.value120_y matches Some(n) ==> n == ev.value120_y)),
            kind is Button ==> exists|i: int|
                0 <= i < steps@.len() - 1 && #[trigger] steps@[i] == (PointerStep::Button {
                    button: ev.button,
                    pressed: ev.pressed != 0,
                }) && steps@[i + 1] is Settle,
    {
        proof {
            what_a_scroll_sends(ev, in_view, there);
            what_a_button_does(ev, in_view, there);
        }
        let mut steps: Vec<PointerStep> = Vec::new();
        match kind {
            PointerKind::Enter | PointerKind::Motion => {
                self.left = false;
                steps.push(PointerStep::MoveUnder);
            },
            PointerKind::Leave => {
                if !in_view {
                    return steps;
                }
                // Mid-click, the implicit grab keeps the focus until the
                // release.
                self.left = true;
                steps.push(PointerStep::MoveOff);
            },
            PointerKind::Button => {
                if !there || !in_view {
                    steps.push(PointerStep::MoveUnder);
                }
                steps.push(PointerStep::Button { button: ev.button, pressed: ev.pressed != 0 });
                steps.push(PointerStep::Settle);
            },
            PointerKind::Axis => {
                let source = match ev.axis_source {
                    1 => AxisSource::Finger,
                    2 => AxisSource::Continuous,
                    3 => AxisSource::WheelTilt,
                    _ => AxisSource::Wheel,
                };
                steps.push(
                    PointerStep::Scroll(
                        Scroll {
                            source,
                            value_x: nonzero(ev.axis_x),
                            value120_x: nonzero120(ev.value120_x),
                            value_y: nonzero(ev.axis_y),
                            value120_y: nonzero120(ev.value120_y),
                        },
                    ),
                );
            },
        }
        steps.push(PointerStep::Frame);
        assert(steps@ =~= pointer_steps(kind, ev, in_view, there));
        steps
    }

    /// A button went up or down. The implicit grab ends with the last button
    /// up, and leaves the focus where the click started: what it is to move
    /// to, if it is not there. `under` is the surface under the pointer,
    /// `focus` the one it is over as far as clients know.
    pub fn settle(&self, grabbed: bool, under: Option<u64>, focus: Option<u64>) -> (to: Option<
        Option<u64>,
    >)
        ensures
            to == {
                let wanted = if self.left {
                    None
                } else {
                    under
                };
                if grabbed || wanted == focus {
                    None
                } else {
                    Some(wanted)
                }
            },
    {
        if grabbed {
            return None;
        }
        let wanted: Option<u64> = if self.left {
            None
        } else {
            under
        };
        let same: bool = match (wanted, focus) {
            (Some(a), Some(b)) => a == b,
            (None, None) => true,
            _ => false,
        };
        if same {
            None
        } else {
            Some(wanted)
        }
    }
}

/// A touch event for a view: what to do with the seat's touch points.
pub fn touch_input(kind: TouchKind, slot: i32) -> (step: TouchStep)
    requires
        slot >= 0,
    ensures
        step == match kind {
            TouchKind::Down => TouchStep::DownUnder { slot: slot as u32 },
            TouchKind::Up => TouchStep::Up { slot: slot as u32 },
            TouchKind::Motion => TouchStep::Move { slot: slot as u32 },
            TouchKind::Cancel => TouchStep::Cancel,
            TouchKind::Frame => TouchStep::Frame,
        },
{
    let slot: u32 = slot as u32;
    match kind {
        TouchKind::Down => TouchStep::DownUnder { slot },
        TouchKind::Up => TouchStep::Up { slot },
        TouchKind::Motion => TouchStep::Move { slot },
        TouchKind::Cancel => TouchStep::Cancel,
        TouchKind::Frame => TouchStep::Frame,
    }
}

impl StateModel {
    /// View `v` was given keyboard focus, or it was taken from it. As a click
    /// off a window would, losing it dismisses the view's popups. Keys held
    /// across the change are forgotten: their releases go wherever the focus
    /// went.
    pub open spec fn focusing(self, v: i32, focused: bool) -> Step {
        if focused == (self.focused_view == Some(v)) {
            (self, Seq::empty())
        } else {
            let next = StateModel {
                focused_view: if focused {
                    Some(v)
                } else {
                    None
                },
                ..self
            };
            (
                next,
                if !focused && self.shown_by(v) is Some {
                    seq![Action::DismissPopups(v)]
                } else {
                    Seq::<Action>::empty()
                } + seq![Action::ReleaseKeys, Action::KeyboardFocus(next.keyboard_target())],
            )
        }
    }
}

impl State {
    /// A key event for a view: the keycode for the seat's keyboard, if the
    /// view has the focus.
    pub fn key_input(&self, view_id: i32, evdev: u32) -> (keycode: Option<u32>)
        requires
            evdev <= KEY_MAX,
        ensures
            keycode == if self@.focused_view == Some(view_id) {
                Some((evdev + XKB_OFFSET) as u32)
            } else {
                None
            },
            keycode matches Some(k) ==> k == evdev + 8,
            keycode is Some <==> self@.focused_view == Some(view_id),
    {
        match self.focused_view {
            Some(v) => {
                if v == view_id {
                    Some(evdev + XKB_OFFSET)
                } else {
                    None
                }
            },
            None => None,
        }
    }

    /// The view was given keyboard focus (`focused`), or it was taken from it.
    pub fn focus_input(&mut self, view_id: i32, focused: bool, out: &mut Vec<Action>)
        requires
            old(self)@.wf(),
        ensures
            final(self)@ == old(self)@.focusing(view_id, focused).0,
            final(self)@.wf(),
            final(out)@ == old(out)@ + old(self)@.focusing(view_id, focused).1,
    {
        let ghost start = out@;
        let has: bool = match self.focused_view {
            Some(v) => v == view_id,
            None => false,
        };
        if focused == has {
            assert(out@ == start + Seq::<Action>::empty());
            return;
        }
        if focused {
            self.focused_view = Some(view_id);
        } else {
            self.focused_view = None;
            if let Some(view) = self.views.get(&view_id) {
                if view.toplevel.is_some() {
                    out.push(Action::DismissPopups(view_id));
                }
            }
        }
        assert(self@ =~= old(self)@.focusing(view_id, focused).0);
        out.push(Action::ReleaseKeys);
        out.push(Action::KeyboardFocus(self.keyboard_target()));
        assert(out@ =~= start + old(self)@.focusing(view_id, focused).1);
    }
}

/// Focus given to a view is its view's until it is taken or given elsewhere:
/// taking it from a view that lacks it changes nothing.
pub proof fn focus_is_one_views(s: StateModel, v: i32, w: i32)
    ensures
        s.focusing(v, true).0.focused_view == Some(v),
        s.focused_view != Some(w) ==> s.focusing(w, false) == (s, Seq::<Action>::empty()),
        s.focusing(v, true).0.focusing(v, true) == (
            s.focusing(v, true).0,
            Seq::<Action>::empty(),
        ),
        s.focusing(v, true).0.focusing(v, false).0.focused_view is None,
{
}

/// A scroll is one step, which sends for each axis the event's own distance
/// and its own count of clicks, each where it is not zero, from the source that
/// the event names: a finger, something continuous, a tilted wheel, or else a
/// wheel.
pub proof fn what_a_scroll_sends(ev: PointerEvent, in_view: bool, there: bool)
    ensures
        ({
            let steps = pointer_steps(PointerKind::Axis, ev, in_view, there);
            let negative_zero: u64 = 0x8000_0000_0000_0000;
            &&& steps.len() == 2
            &&& steps[1] is Frame
            &&& steps[0] matches PointerStep::Scroll(sc) && {
                &&& (ev.axis_x == 0 || ev.axis_x == negative_zero) ==> sc.value_x is None
                &&& (ev.axis_x != 0 && ev.axis_x != negative_zero) ==> sc.value_x == Some(
                    ev.axis_x,
                )
                &&& (ev.axis_y == 0 || ev.axis_y == negative_zero) ==> sc.value_y is None
                &&& (ev.axis_y != 0 && ev.axis_y != negative_zero) ==> sc.value_y == Some(
                    ev.axis_y,
                )
                &&& ev.value120_x == 0 <==> sc.value120_x is None
                &&& sc.value120_x matches Some(n) ==> n == ev.value120_x
                &&& ev.value120_y == 0 <==> sc.value120_y is None
                &&& sc.value120_y matches Some(n) ==> n == ev.value120_y
                &&& ev.axis_source == 1 <==> sc.source is Finger
                &&& ev.axis_source == 2 <==> sc.source is Continuous
                &&& ev.axis_source == 3 <==> sc.source is WheelTilt
            }
        }),
{
}

/// A button goes to the client as it was pressed or released, then the grab is
/// settled, then the event is complete. Where the pointer is not at the
/// event's place in the view it moves there first, and only then.
pub proof fn what_a_button_does(ev: PointerEvent, in_view: bool, there: bool)
    ensures
        ({
            let steps = pointer_steps(PointerKind::Button, ev, in_view, there);
            let at: int = if in_view && there {
                0
            } else {
                1
            };
            &&& steps.len() == at + 3
            &&& steps[0] is MoveUnder <==> !(in_view && there)
            &&& steps[at] == (PointerStep::Button {
                button: ev.button,
                pressed: ev.pressed != 0,
            })
            &&& steps[at + 1] is Settle
            &&& steps[at + 2] is Frame
        }),
{
}

/// Entering a view, or moving in it, moves the pointer onto what is under it;
/// leaving the view it is in moves it off, and leaving another does nothing.
/// Leaving is remembered until it enters or moves again.
pub proof fn what_moving_does(ev: PointerEvent, in_view: bool, there: bool, left: bool)
    ensures
        pointer_steps(PointerKind::Enter, ev, in_view, there) == seq![
            PointerStep::MoveUnder,
            PointerStep::Frame,
        ],
        pointer_steps(PointerKind::Motion, ev, in_view, there) == seq![
            PointerStep::MoveUnder,
            PointerStep::Frame,
        ],
        in_view ==> pointer_steps(PointerKind::Leave, ev, in_view, there) == seq![
            PointerStep::MoveOff,
            PointerStep::Frame,
        ],
        !in_view ==> pointer_steps(PointerKind::Leave, ev, in_view, there).len() == 0,
        in_view ==> left_after(left, PointerKind::Leave, in_view),
        !in_view ==> left_after(left, PointerKind::Leave, in_view) == left,
        !left_after(left, PointerKind::Enter, in_view),
        !left_after(left, PointerKind::Motion, in_view),
        left_after(left, PointerKind::Button, in_view) == left,
        left_after(left, PointerKind::Axis, in_view) == left,
{
}

/// Protocol time counts whole milliseconds, and wraps.
pub proof fn protocol_time_counts_milliseconds(t: u64)
    ensures
        t < 4_294_967_296_000 ==> wrapped_ms(t) * 1000 <= t < (wrapped_ms(t) + 1) * 1000,
        t <= u64::MAX - 4_294_967_296_000 ==> wrapped_ms((t + 4_294_967_296_000) as u64)
            == wrapped_ms(t),
{
}

/// A double is finite where the eleven bits of its exponent are not all set,
/// and zero where nothing but its sign is.
pub proof fn what_the_bits_of_a_double_say(bits: u64)
    ensures
        finite(bits) <==> (bits >> 52) & 0x7ff != 0x7ff,
        zero(bits) <==> bits == 0 || bits == 0x8000_0000_0000_0000,
{
    assert((bits % 0x8000_0000_0000_0000 < 0x7ff0_0000_0000_0000) <==> (bits >> 52) & 0x7ff
        != 0x7ff) by (bit_vector);
}

/// An event is taken where its kind is one of the five there are, told apart by
/// their numbers, and all its numbers are finite; a touch event's slot is not
/// negative besides.
pub proof fn which_events_are_taken(p: PointerEvent, t: TouchEvent, m: u32, n: u32)
    ensures
        p.valid() <==> p.kind <= 4 && finite(p.x) && finite(p.y) && finite(p.axis_x) && finite(
            p.axis_y,
        ),
        t.valid() <==> t.kind <= 4 && t.slot >= 0 && finite(t.x) && finite(t.y),
        m <= 4 && n <= 4 && m != n ==> pointer_kind(m) != pointer_kind(n) && touch_kind(m)
            != touch_kind(n),
{
}

/// Focus that changes hands has the keys held down forgotten, then the keyboard
/// pointed at what the focused view shows. A view that loses it has its popups
/// dismissed first, if it shows anything.
pub proof fn what_a_focus_change_does(s: StateModel, v: i32, focused: bool)
    requires
        focused != (s.focused_view == Some(v)),
    ensures
        ({
            let n = s.focusing(v, focused).0;
            let acts = s.focusing(v, focused).1;
            &&& focused ==> n.focused_view == Some(v)
            &&& !focused ==> n.focused_view is None
            &&& n.views == s.views
            &&& n.toplevels == s.toplevels
            &&& acts.len() >= 2
            &&& acts[acts.len() - 2] == Action::ReleaseKeys
            &&& acts.last() == Action::KeyboardFocus(n.keyboard_target())
            &&& (acts.len() == 3 && acts[0] == Action::DismissPopups(v)) <==> (!focused
                && s.views.contains_key(v) && s.views[v].toplevel is Some)
            &&& acts.len() == 2 || acts.len() == 3
        }),
{
}

/// The numbers of the kinds of pointer and touch event, and of the sources of a
/// scroll; a source that is not known counts as a wheel.
pub proof fn kinds_have_their_numbers(n: u32)
    ensures
        pointer_kind(0) == Some(PointerKind::Enter),
        pointer_kind(1) == Some(PointerKind::Motion),
        pointer_kind(2) == Some(PointerKind::Leave),
        pointer_kind(3) == Some(PointerKind::Button),
        pointer_kind(4) == Some(PointerKind::Axis),
        n > 4 ==> pointer_kind(n) is None,
        touch_kind(0) == Some(TouchKind::Down),
        touch_kind(1) == Some(TouchKind::Up),
        touch_kind(2) == Some(TouchKind::Motion),
        touch_kind(3) == Some(TouchKind::Cancel),
        touch_kind(4) == Some(TouchKind::Frame),
        n > 4 ==> touch_kind(n) is None,
        axis_source(0) == AxisSource::Wheel,
        axis_source(1) == AxisSource::Finger,
        axis_source(2) == AxisSource::Continuous,
        axis_source(3) == AxisSource::WheelTilt,
        n > 3 ==> axis_source(n) == AxisSource::Wheel,
{
}

} // verus!
