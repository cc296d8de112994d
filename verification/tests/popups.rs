use ihs_wl_server::action::Action;
use ihs_wl_server::input::{Pointer, PointerEvent, PointerKind, PointerStep};
use ihs_wl_server::params::ViewParams;
use ihs_wl_server::popups::{
    grab_popup, popup_target, toplevel_of, view_trees, Grab, Popup, Tree,
};
use ihs_wl_server::state::State;
use ihs_wl_server::tree::Rect;

/// A toplevel shown by view 1, 640x480.
fn shown() -> State {
    let mut s = State::new();
    let id = s.add_toplevel(1, Some(7));
    let mut out = Vec::new();
    s.toplevel_commit(id, &mut out);
    s.view_created(1, ViewParams::default(), Some((640, 480)), &mut out);
    s
}

#[test]
fn a_popup_shows_above_its_toplevel_and_takes_input() {
    let popup = Popup {
        surface: 9,
        at: (10, 20),
        geometry: (0, 0),
    };
    assert_eq!(
        view_trees(5, (0, 0), &vec![popup]),
        vec![
            Tree {
                surface: 5,
                x: 0,
                y: 0
            },
            Tree {
                surface: 9,
                x: 10,
                y: 20
            }
        ]
    );
    assert_eq!(view_trees(5, (0, 0), &Vec::new()).len(), 1);
}

#[test]
fn children_show_above_their_parents() {
    let parent = Popup {
        surface: 9,
        at: (10, 20),
        geometry: (2, 3),
    };
    let child = Popup {
        surface: 11,
        at: (15, 25),
        geometry: (0, 0),
    };
    let trees = view_trees(5, (4, 6), &vec![child, parent]);
    let order: Vec<u64> = trees.iter().map(|t| t.surface).collect();
    assert_eq!(order, vec![5, 9, 11]);
    assert_eq!((trees[0].x, trees[0].y), (-4, -6));
    assert_eq!((trees[1].x, trees[1].y), (8, 17));
}

#[test]
fn a_popup_is_kept_inside_its_view() {
    assert_eq!(
        popup_target(Some((640, 480)), (0, 0)),
        Some(Rect {
            x: 0,
            y: 0,
            w: 640,
            h: 480
        })
    );
    // Where its parent is a popup at 10,20.
    assert_eq!(
        popup_target(Some((640, 480)), (10, 20)),
        Some(Rect {
            x: -10,
            y: -20,
            w: 640,
            h: 480
        })
    );
    assert_eq!(popup_target(None, (0, 0)), None);
}

#[test]
fn a_press_outside_the_client_dismisses_a_grabbing_popup() {
    // The press that opens the menu grants its grab.
    let by_press = Grab {
        grabbed: true,
        by_this: true,
        by_previous: false,
    };
    let free = Grab {
        grabbed: false,
        by_this: false,
        by_previous: false,
    };
    assert!(grab_popup(by_press, Some(free)));
    assert!(grab_popup(by_press, None));
    // A press elsewhere moves the pointer off the client's surfaces first.
    let mut pointer = Pointer { left: false };
    let ev = PointerEvent {
        kind: 3,
        x: 400f64.to_bits(),
        y: 400f64.to_bits(),
        button: 0x110,
        pressed: 1,
        axis_source: 0,
        axis_x: 0,
        axis_y: 0,
        value120_x: 0,
        value120_y: 0,
        time_us: 1_000,
    };
    assert_eq!(
        pointer.pointer_input(PointerKind::Button, ev, true, false),
        vec![
            PointerStep::MoveUnder,
            PointerStep::Button {
                button: 0x110,
                pressed: true
            },
            PointerStep::Settle,
            PointerStep::Frame
        ]
    );
}

#[test]
fn a_grab_is_not_taken_from_another() {
    let other = Grab {
        grabbed: true,
        by_this: false,
        by_previous: false,
    };
    let nested = Grab {
        grabbed: true,
        by_this: false,
        by_previous: true,
    };
    assert!(!grab_popup(other, None));
    assert!(!grab_popup(nested, Some(other)));
    assert!(grab_popup(nested, Some(nested)));
}

#[test]
fn losing_focus_dismisses_popups() {
    let mut s = shown();
    let mut out = Vec::new();
    s.focus_input(1, true, &mut out);
    assert!(!out.contains(&Action::DismissPopups(1)));
    let mut out = Vec::new();
    s.focus_input(1, false, &mut out);
    assert_eq!(out[0], Action::DismissPopups(1));
}

#[test]
fn leaving_the_scene_dismisses_popups() {
    let mut s = shown();
    let mut out = Vec::new();
    s.view_suspended(1, true, 5, &mut out);
    assert_eq!(out, vec![Action::DismissPopups(1)]);
    let mut out = Vec::new();
    s.view_suspended(1, false, 6, &mut out);
    assert!(out.is_empty());
}

#[test]
fn a_popup_belongs_to_its_toplevel() {
    assert_eq!(toplevel_of(3, Some(8)), 8);
    assert_eq!(toplevel_of(3, None), 3);
}
