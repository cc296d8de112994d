//! Requests to the compositor thread, and what each does.

use vstd::prelude::*;

use crate::action::Action;
use crate::input::{PointerEvent, PointerKind, TouchEvent, TouchKind};
use crate::params::ViewParams;
use crate::scanout::Hint;
use crate::state::{State, StateModel, Step};
use crate::timing::Report;

verus! {

/// A request from an entry point to the compositor thread.
#[derive(Debug)]
pub enum Cmd {
    Quit,
    /// A view was created by the factory, at this size if that is known.
    ViewCreated { view_id: i32, params: ViewParams, size: Option<(i32, i32)> },
    /// A view's dispose callback ran; its link is already cleared.
    ViewDisposed(i32),
    /// The view was laid out at this size, in physical pixels.
    ViewResized { view_id: i32, width: i32, height: i32 },
    /// The shell showed a frame of the view.
    Presented { view_id: i32, report: Report },
    /// The view left (true) or re-entered the scene.
    ViewSuspended { view_id: i32, suspended: bool },
    Pointer { view_id: i32, kind: PointerKind, event: PointerEvent },
    Touch { view_id: i32, kind: TouchKind, event: TouchEvent },
    Key { view_id: i32, evdev: u32, pressed: bool, time_us: u64 },
    Focus { view_id: i32, focused: bool },
    /// The shell's scanout hint for a layer of the view.
    ScanoutHint { view_id: i32, hint: Hint },
}

/// What the seat or the scene is to be asked before a request is done.
#[derive(Debug)]
pub enum Ask {
    /// Nothing: it is done.
    Nothing,
    Pointer { view_id: i32, kind: PointerKind, event: PointerEvent },
    Touch { view_id: i32, kind: TouchKind, event: TouchEvent },
    /// Send this key to what the keyboard points at.
    Key { keycode: u32, pressed: bool, time_ms: u32 },
    ScanoutHint { view_id: i32, hint: Hint },
}

/// What a request makes of the state at `now`, and what it asks for.
pub open spec fn handling(s: StateModel, cmd: Cmd, now: u64) -> Step {
    match cmd {
        Cmd::Quit => (s, seq![Action::Quit]),
        Cmd::ViewCreated { view_id, params, size } => s.creating(
            view_id,
            crate::state::fresh_view(params, size),
        ),
        Cmd::ViewDisposed(view_id) => s.disposing(view_id),
        Cmd::ViewResized { view_id, width, height } => s.resizing(view_id, width, height),
        Cmd::Presented { view_id, report } => s.presenting(view_id, report),
        Cmd::ViewSuspended { view_id, suspended } => {
            let step = s.suspending(view_id, suspended, now);
            (step.0, step.1.push(Action::KeyboardFocus(step.0.keyboard_target())))
        },
        Cmd::Focus { view_id, focused } => s.focusing(view_id, focused),
        _ => (s, Seq::empty()),
    }
}

/// What has to be asked before a request is done.
pub open spec fn asking(s: StateModel, cmd: Cmd) -> Ask {
    match cmd {
        Cmd::Pointer { view_id, kind, event } => Ask::Pointer { view_id, kind, event },
        Cmd::Touch { view_id, kind, event } => Ask::Touch { view_id, kind, event },
        Cmd::Key { view_id, evdev, pressed, time_us } => if s.focused_view == Some(view_id) {
            Ask::Key {
                keycode: (evdev + crate::input::XKB_OFFSET) as u32,
                pressed,
                time_ms: crate::input::wrapped_ms(time_us),
            }
        } else {
            Ask::Nothing
        },
        Cmd::ScanoutHint { view_id, hint } => Ask::ScanoutHint { view_id, hint },
        _ => Ask::Nothing,
    }
}

impl State {
    /// A request came, at `now_ns`.
    pub fn handle_cmd(&mut self, cmd: Cmd, now_ns: u64, out: &mut Vec<Action>) -> (ask: Ask)
        requires
            old(self)@.wf(),
            old(self)@.numbers_left(),
            now_ns < u64::MAX,
            cmd matches Cmd::Key { evdev, .. } ==> evdev <= crate::input::KEY_MAX,
        ensures
            final(self)@ == handling(old(self)@, cmd, now_ns).0,
            final(self)@.wf(),
            final(out)@ == old(out)@ + handling(old(self)@, cmd, now_ns).1,
            ask == asking(old(self)@, cmd),
    {
        let ghost start = out@;
        match cmd {
            Cmd::Quit => {
                out.push(Action::Quit);
                assert(out@ =~= start + seq![Action::Quit]);
                Ask::Nothing
            },
            Cmd::ViewCreated { view_id, params, size } => {
                self.view_created(view_id, params, size, out);
                Ask::Nothing
            },
            Cmd::ViewDisposed(view_id) => {
                self.view_disposed(view_id, out);
                Ask::Nothing
            },
            Cmd::ViewResized { view_id, width, height } => {
                self.view_resized(view_id, width, height, out);
                Ask::Nothing
            },
            Cmd::Presented { view_id, report } => {
                self.frame_presented(view_id, report, out);
                Ask::Nothing
            },
            Cmd::ViewSuspended { view_id, suspended } => {
                self.view_suspended(view_id, suspended, now_ns, out);
                out.push(Action::KeyboardFocus(self.keyboard_target()));
                assert(out@ =~= start + handling(old(self)@, cmd, now_ns).1);
                Ask::Nothing
            },
            Cmd::Pointer { view_id, kind, event } => {
                assert(out@ =~= start + Seq::<Action>::empty());
                Ask::Pointer { view_id, kind, event }
            },
            Cmd::Touch { view_id, kind, event } => {
                assert(out@ =~= start + Seq::<Action>::empty());
                Ask::Touch { view_id, kind, event }
            },
            Cmd::Key { view_id, evdev, pressed, time_us } => {
                assert(out@ =~= start + Seq::<Action>::empty());
                match self.key_input(view_id, evdev) {
                    Some(keycode) => Ask::Key {
                        keycode,
                        pressed,
                        time_ms: crate::input::time_ms(time_us),
                    },
                    None => Ask::Nothing,
                }
            },
            Cmd::Focus { view_id, focused } => {
                self.focus_input(view_id, focused, out);
                Ask::Nothing
            },
            Cmd::ScanoutHint { view_id, hint } => {
                assert(out@ =~= start + Seq::<Action>::empty());
                Ask::ScanoutHint { view_id, hint }
            },
        }
    }
}

/// What a commit of a surface leads to.
#[derive(Clone, Copy, Debug, PartialEq, Eq, Structural)]
pub enum Commit {
    /// Applied with its parent's commit, which submits the tree.
    WithParent,
    /// The view that shows it is submitted anew.
    Submit(i32),
    /// No view shows it: what its tree waits for is released on the clock.
    NotShown,
}

impl State {
    /// A surface committed: `sync` is whether it is a subsurface that is
    /// applied with its parent, `toplevel` the toplevel it belongs to, popups
    /// included.
    pub fn commit(&self, sync: bool, toplevel: Option<i64>) -> (c: Commit)
        ensures
            c == if sync {
                Commit::WithParent
            } else {
                match toplevel {
                    Some(t) => if self@.toplevels.contains_key(t) && self@.toplevels[t].view is Some {
                        Commit::Submit(self@.toplevels[t].view->0)
                    } else {
                        Commit::NotShown
                    },
                    None => Commit::NotShown,
                }
            },
    {
        if sync {
            return Commit::WithParent;
        }
        match self.bound_view_of(toplevel) {
            Some(view_id) => Commit::Submit(view_id),
            None => Commit::NotShown,
        }
    }

    /// The view showing a toplevel, if it is bound.
    pub fn bound_view_of(&self, toplevel: Option<i64>) -> (view: Option<i32>)
        ensures
            view == match toplevel {
                Some(t) => if self@.toplevels.contains_key(t) {
                    self@.toplevels[t].view
                } else {
                    None
                },
                None => None,
            },
    {
        match toplevel {
            Some(t) => match self.toplevels.get(&t) {
                Some(top) => top.view,
                None => None,
            },
            None => None,
        }
    }
}

/// Each request leads to what it asks for, of its own view and with its own
/// values.
pub proof fn each_request_is_done(
    s: StateModel,
    v: i32,
    w: i32,
    h: i32,
    report: Report,
    yes: bool,
    now: u64,
)
    ensures
        handling(s, Cmd::Quit, now) == (s, seq![Action::Quit]),
        handling(s, Cmd::ViewDisposed(v), now) == s.disposing(v),
        handling(s, Cmd::ViewResized { view_id: v, width: w, height: h }, now) == s.resizing(v, w, h),
        handling(s, Cmd::Presented { view_id: v, report }, now) == s.presenting(v, report),
        handling(s, Cmd::Focus { view_id: v, focused: yes }, now) == s.focusing(v, yes),
        handling(s, Cmd::ViewSuspended { view_id: v, suspended: yes }, now).0 == s.suspending(
            v,
            yes,
            now,
        ).0,
        handling(s, Cmd::ViewSuspended { view_id: v, suspended: yes }, now).1.last()
            == Action::KeyboardFocus(s.suspending(v, yes, now).0.keyboard_target()),
        handling(s, Cmd::ViewSuspended { view_id: v, suspended: yes }, now).1.drop_last()
            == s.suspending(v, yes, now).1,
{
    let step = s.suspending(v, yes, now);
    assert(step.1.push(Action::KeyboardFocus(step.0.keyboard_target())).drop_last() =~= step.1);
}

/// A view that was asked for is created with what the widget passed, at the
/// size it was laid out at.
pub proof fn a_requested_view_is_created(
    s: StateModel,
    v: i32,
    params: ViewParams,
    size: Option<(i32, i32)>,
    now: u64,
)
    ensures
        handling(s, Cmd::ViewCreated { view_id: v, params, size }, now).0.views.contains_key(v),
        params.dpr is Some ==> handling(
            s,
            Cmd::ViewCreated { view_id: v, params, size },
            now,
        ).0.views[v].dpr == params.dpr->0,
        handling(s, Cmd::ViewCreated { view_id: v, params, size }, now).0.views[v].size == size,
        handling(s, Cmd::ViewCreated { view_id: v, params, size }, now).1[0]
            == Action::OutputScale(v),
{
}

/// Input goes to its own view as it came; a key only where that view has the
/// keyboard, as the xkb code, which is 8 above, with its time in milliseconds.
pub proof fn input_goes_to_its_view(
    s: StateModel,
    v: i32,
    pointer: PointerEvent,
    pk: PointerKind,
    touch: TouchEvent,
    tk: TouchKind,
    evdev: u32,
    pressed: bool,
    time_us: u64,
    now: u64,
)
    requires
        evdev <= 0x2ff,
    ensures
        asking(s, Cmd::Pointer { view_id: v, kind: pk, event: pointer }) == (Ask::Pointer {
            view_id: v,
            kind: pk,
            event: pointer,
        }),
        asking(s, Cmd::Touch { view_id: v, kind: tk, event: touch }) == (Ask::Touch {
            view_id: v,
            kind: tk,
            event: touch,
        }),
        s.focused_view == Some(v) ==> asking(
            s,
            Cmd::Key { view_id: v, evdev, pressed, time_us },
        ) == (Ask::Key {
            keycode: (evdev + 8) as u32,
            pressed,
            time_ms: ((time_us / 1000) % 0x1_0000_0000) as u32,
        }),
        s.focused_view != Some(v) ==> asking(
            s,
            Cmd::Key { view_id: v, evdev, pressed, time_us },
        ) is Nothing,
        handling(s, Cmd::Pointer { view_id: v, kind: pk, event: pointer }, now) == (
            s,
            Seq::<Action>::empty(),
        ),
        handling(s, Cmd::Touch { view_id: v, kind: tk, event: touch }, now) == (
            s,
            Seq::<Action>::empty(),
        ),
        handling(s, Cmd::Key { view_id: v, evdev, pressed, time_us }, now) == (
            s,
            Seq::<Action>::empty(),
        ),
{
}

/// A hint goes to its own view as it came.
pub proof fn a_hint_goes_to_its_view(s: StateModel, v: i32, hint: Hint, now: u64)
    ensures
        asking(s, Cmd::ScanoutHint { view_id: v, hint }) == (Ask::ScanoutHint { view_id: v, hint }),
        handling(s, Cmd::ScanoutHint { view_id: v, hint }, now) == (s, Seq::<Action>::empty()),
{
}

} // verus!
