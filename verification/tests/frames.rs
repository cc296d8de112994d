use ihs_wl_server::action::Action;
use ihs_wl_server::buffers::BufferKey;
use ihs_wl_server::commands::{Ask, Cmd, Commit};
use ihs_wl_server::holds::{Holds, MAX_UNFENCED};
use ihs_wl_server::pacing::Timer;
use ihs_wl_server::params::ViewParams;
use ihs_wl_server::state::State;
use ihs_wl_server::submit::{Fence, Layer, MAX_LAYERS};
use ihs_wl_server::timing::{
    Feedback, Report, Taken, Told, DEFAULT_REFRESH_NS, MAX_IN_FLIGHT, STALE_NS,
};

const APP: &str = "org.example.frames";
const A: BufferKey = BufferKey::Client(100);
const B: BufferKey = BufferKey::Client(101);
const CLIENT: u64 = 7;

fn layer(id: u32, key: BufferKey, generation: u64) -> Layer {
    Layer {
        layer_id: id,
        key,
        generation,
    }
}

fn report(seq: u64, ust_ns: u64) -> Report {
    Report {
        seq,
        ust_ns,
        refresh_ns: 16_666_667,
        msc: 0,
        flags: 0,
    }
}

/// A toplevel shown by view `view`.
fn bound(view: i32) -> State {
    let mut s = State::new();
    let id = s.add_toplevel(1, Some(CLIENT));
    s.name_toplevel(id, APP.to_string(), "frames".to_string());
    let mut out = Vec::new();
    s.toplevel_commit(id, &mut out);
    s.view_created(
        view,
        ViewParams {
            token: None,
            app_id: Some(APP.to_string()),
            dpr: None,
        },
        Some((32, 32)),
        &mut out,
    );
    assert_eq!(s.toplevels[&id].view, Some(view));
    s
}

/// Submit one layer, taken by the shell without a fence.
fn submit(s: &mut State, view: i32, l: Layer, taken: Taken, now: u64) -> (u64, u32, Vec<Action>) {
    let layers = vec![l];
    let sub = s.submit_begin(view, &layers, layers.len()).unwrap();
    let mut out = Vec::new();
    s.submit_accepted(view, &layers, &vec![Fence::Absent], taken, now, &mut out);
    assert_eq!(s.views[&view].seq, sub.seq);
    (sub.seq, sub.ids[0], out)
}

fn present(s: &mut State, view: i32, seq: u64, ust_ns: u64) -> Vec<Action> {
    let mut out = Vec::new();
    s.frame_presented(view, report(seq, ust_ns), &mut out);
    out
}

fn tick(s: &mut State, now: u64) -> Vec<Action> {
    let mut out = Vec::new();
    s.on_tick(now, &Vec::<Timer>::new(), &mut out);
    out
}

fn answered(out: &[Action], view: i32) -> bool {
    out.iter()
        .any(|a| matches!(a, Action::FrameCallbacks { view_id, .. } if *view_id == view))
}

fn ticks(out: &[Action]) -> Vec<u64> {
    out.iter()
        .filter_map(|a| match a {
            Action::Tick(at) => Some(*at),
            _ => None,
        })
        .collect()
}

/// The view with its first frame reported.
fn shown(view: i32) -> State {
    let mut s = bound(view);
    let (seq, _, _) = submit(&mut s, view, layer(1, A, 1), Taken::new(), 1_000_000_000);
    let out = present(&mut s, view, seq, 1_010_000_000);
    assert!(answered(&out, view));
    s
}

#[test]
fn a_reported_frame_answers_at_once() {
    let mut s = shown(31);
    let (seq, _, _) = submit(&mut s, 31, layer(1, B, 2), Taken::new(), 1_100_000_000);
    let out = present(&mut s, 31, seq, 1_110_000_000);
    assert!(out.contains(&Action::FrameCallbacks {
        view_id: 31,
        time_ms: 1_110
    }));
    assert_eq!(s.views[&31].answer, None);
}

#[test]
fn a_lost_report_still_answers() {
    let mut s = shown(32);
    let now = 1_100_000_000;
    submit(&mut s, 32, layer(1, B, 2), Taken::new(), now);
    // Never reported: answered once it has gone stale. The clock runs once
    // more for the first frame before that.
    let first = s.pacing.tick.unwrap();
    assert_eq!(first, 1_000_000_000 + STALE_NS);
    let out = tick(&mut s, first);
    assert!(!answered(&out, 32));
    assert_eq!(ticks(&out), vec![now + STALE_NS]);
    let out = tick(&mut s, now + STALE_NS);
    assert!(answered(&out, 32));
    // Once.
    assert!(!answered(&tick(&mut s, now + 2 * STALE_NS), 32));
    // And the next one the same way: the client keeps going.
    let later = now + 3 * STALE_NS;
    submit(&mut s, 32, layer(1, A, 3), Taken::new(), later);
    assert!(answered(&tick(&mut s, later + STALE_NS), 32));
}

#[test]
fn a_refused_frame_answers_at_the_next_refresh() {
    let mut s = shown(33);
    let now = 1_100_000_000;
    let layers = vec![layer(1, B, 2)];
    s.submit_begin(33, &layers, layers.len()).unwrap();
    let mut out = Vec::new();
    s.submit_refused(33, &layers, Taken::new(), now, &mut out);
    assert!(out.contains(&Action::ReleaseBuffer(101)));
    let at = ticks(&out)[0];
    assert!(at > now && at <= now + DEFAULT_REFRESH_NS);
    assert!(answered(&tick(&mut s, at), 33));
}

#[test]
fn off_screen_frame_callbacks_wait_for_the_view() {
    let mut s = shown(34);
    let mut out = Vec::new();
    s.view_suspended(34, true, 1_050_000_000, &mut out);
    let (seq, _, _) = submit(&mut s, 34, layer(1, B, 2), Taken::new(), 1_100_000_000);
    assert!(!answered(&tick(&mut s, 2_000_000_000), 34));
    // Shown again: its frame is reported, and answered.
    let mut out = Vec::new();
    s.view_suspended(34, false, 2_100_000_000, &mut out);
    assert!(answered(&present(&mut s, 34, seq, 2_110_000_000), 34));
}

#[test]
fn back_on_screen_an_unreported_frame_still_answers() {
    let mut s = shown(35);
    let mut out = Vec::new();
    s.view_suspended(35, true, 1_050_000_000, &mut out);
    submit(&mut s, 35, layer(1, B, 2), Taken::new(), 1_100_000_000);
    assert!(!answered(&tick(&mut s, 1_500_000_000), 35));
    // Shown again, but its frame is never reported.
    let now = 2_000_000_000;
    let mut out = Vec::new();
    s.view_suspended(35, false, now, &mut out);
    assert_eq!(s.views[&35].answer, Some(now + STALE_NS));
    assert!(!answered(&tick(&mut s, now + 150_000_000), 35));
    assert!(answered(&tick(&mut s, now + STALE_NS), 35));
}

#[test]
fn buffer_ids_are_stable_and_retired_with_the_buffer() {
    let mut s = bound(5);
    let (s1, i1, _) = submit(&mut s, 5, layer(1, A, 1), Taken::new(), 1);
    let (s2, i2, _) = submit(&mut s, 5, layer(1, B, 2), Taken::new(), 2);
    let (s3, i3, _) = submit(&mut s, 5, layer(1, A, 3), Taken::new(), 3);
    assert_eq!(i1, i3, "a buffer shown again kept its id");
    assert_ne!(i1, i2, "two buffers share an id");
    assert_ne!(i1, 0);
    assert!(s1 < s2 && s2 < s3, "seq must increase");

    let mut out = Vec::new();
    s.retire_key(B, &mut out);
    assert_eq!(
        out,
        vec![Action::Retire {
            view_id: 5,
            buffer_id: i2
        }]
    );
    // Shown anew, it is another buffer.
    let (_, i4, _) = submit(&mut s, 5, layer(1, B, 4), Taken::new(), 4);
    assert!(i4 != i1 && i4 != i2);
}

#[test]
fn a_client_that_exits_has_its_buffers_retired() {
    let mut s = bound(9);
    let (_, a, _) = submit(&mut s, 9, layer(1, A, 1), Taken::new(), 1);
    let (_, b, _) = submit(&mut s, 9, layer(1, B, 2), Taken::new(), 2);
    let mut out = Vec::new();
    s.retire_key(A, &mut out);
    s.retire_key(B, &mut out);
    for id in [a, b] {
        assert!(out.contains(&Action::Retire {
            view_id: 9,
            buffer_id: id
        }));
    }
}

#[test]
fn buffers_go_back_once_a_later_frame_is_shown() {
    let mut s = bound(6);
    let (first, _, out) = submit(&mut s, 6, layer(1, A, 1), Taken::new(), 1_000);
    assert!(!out.contains(&Action::ReleaseBuffer(100)));
    let (second, _, out) = submit(&mut s, 6, layer(1, B, 2), Taken::new(), 2_000);
    assert!(!out.contains(&Action::ReleaseBuffer(100)));

    // The first frame shown: a is still current in it, nothing goes back,
    // but the clients may draw on.
    let out = present(&mut s, 6, first, 3_000);
    assert!(answered(&out, 6));
    assert!(!out.contains(&Action::ReleaseBuffer(100)));

    // The frame that replaced it is shown: a is free.
    let out = present(&mut s, 6, second, 4_000);
    assert!(out.contains(&Action::ReleaseBuffer(100)));
    assert!(!out.contains(&Action::ReleaseBuffer(101)));
    let mut out = Vec::new();
    s.view_disposed(6, &mut out);
    assert!(out.contains(&Action::ReleaseBuffer(101)));
}

#[test]
fn buffers_go_back_when_their_fence_signals() {
    let mut s = bound(7);
    let layers = vec![layer(1, A, 1)];
    s.submit_begin(7, &layers, layers.len()).unwrap();
    let key = s.fence_key(7);
    let mut out = Vec::new();
    s.submit_accepted(
        7,
        &layers,
        &vec![Fence::Watched(key)],
        Taken::new(),
        1_000,
        &mut out,
    );
    submit(&mut s, 7, layer(1, B, 2), Taken::new(), 2_000);
    // Presenting does not matter here: the fence decides.
    let out = present(&mut s, 7, 2, 3_000);
    assert!(!out.contains(&Action::ReleaseBuffer(100)));
    let mut out = Vec::new();
    s.fence_signaled(7, key, &mut out);
    assert_eq!(out, vec![Action::ReleaseBuffer(100)]);
    let mut out = Vec::new();
    s.fence_signaled(7, key, &mut out);
    assert!(out.is_empty(), "dropped once");
}

#[test]
fn a_fence_that_cannot_be_watched_gives_the_buffer_back() {
    let mut s = bound(7);
    let layers = vec![layer(1, A, 1)];
    s.submit_begin(7, &layers, layers.len()).unwrap();
    let mut out = Vec::new();
    s.submit_accepted(7, &layers, &vec![Fence::Unwatched], Taken::new(), 1, &mut out);
    assert!(out.contains(&Action::ReleaseBuffer(100)));
}

#[test]
fn empty_holds() {
    let holds = Holds::new();
    assert_eq!(holds.held(), 0);
    assert!(MAX_UNFENCED >= 2 * MAX_LAYERS);
}

#[test]
fn holds_are_bounded() {
    let mut holds = Holds::new();
    let mut out = Vec::new();
    for n in 0..MAX_UNFENCED as u64 + 3 {
        holds.hold_unfenced(1, BufferKey::Client(n), &mut out);
    }
    assert_eq!(holds.held(), MAX_UNFENCED);
    // The oldest go back.
    assert_eq!(
        out,
        vec![
            Action::ReleaseBuffer(0),
            Action::ReleaseBuffer(1),
            Action::ReleaseBuffer(2)
        ]
    );
}

#[test]
fn the_shell_gets_the_bottom_layers() {
    let mut s = bound(8);
    let layers: Vec<Layer> = (0..40)
        .map(|n| layer(n + 1, BufferKey::Client(n as u64), 1))
        .collect();
    let sub = s.submit_begin(8, &layers, layers.len()).unwrap();
    assert_eq!(sub.ids.len(), MAX_LAYERS);
    assert!(s.submit_begin(8, &Vec::new(), 0).is_none());
    assert!(s.submit_begin(9, &layers, layers.len()).is_none());
}

/// The callbacks answered as shown, and what each is told.
fn presented(out: &[Action]) -> Vec<(u64, Told)> {
    out.iter()
        .filter_map(|a| match a {
            Action::Presented(callback, told) => Some((*callback, *told)),
            _ => None,
        })
        .collect()
}

fn feedback(layer_id: u32, generation: u64, callback: u64) -> Taken {
    let mut t = Taken::new();
    t.from_surface(layer_id, generation, &vec![callback], None);
    t
}

fn barrier(layer_id: u32, generation: u64, id: u64) -> Taken {
    let mut t = Taken::new();
    t.from_surface(layer_id, generation, &Vec::new(), Some(id));
    t
}

#[test]
fn feedback_reports_the_shown_frame() {
    let mut s = bound(20);
    submit(&mut s, 20, layer(1, A, 1), Taken::new(), 1);
    submit(&mut s, 20, layer(1, B, 2), feedback(1, 2, 50), 2);
    let (seq, _, _) = submit(&mut s, 20, layer(1, A, 3), feedback(1, 3, 51), 3);
    // vsync, hw clock, zero copy
    let flags = 0x1 | 0x2 | 0x8;
    let report = Report {
        seq,
        ust_ns: 5_000_000_123,
        refresh_ns: 16_666_667,
        msc: 42,
        flags,
    };
    let mut out = Vec::new();
    s.frame_presented(20, report, &mut out);
    assert_eq!(
        presented(&out),
        vec![(
            51,
            Told {
                time_ns: 5_000_000_123,
                refresh_ns: Some(16_666_667),
                msc: 42,
                flags,
            }
        )]
    );
    assert!(s.views[&20].frames.frames.is_empty());
    assert!(out.contains(&Action::Discarded(50)), "replaced unshown");

    submit(&mut s, 20, layer(1, B, 4), feedback(1, 4, 52), 4);
    let mut out = Vec::new();
    s.view_disposed(20, &mut out);
    assert!(out.contains(&Action::Discarded(52)));
}

#[test]
fn feedback_of_content_still_shown_is_presented() {
    let mut s = bound(21);
    let base = layer(1, A, 1);
    let scene = vec![base, layer(2, B, 5)];
    s.submit_begin(21, &scene, scene.len()).unwrap();
    let mut out = Vec::new();
    let fences = vec![Fence::Absent, Fence::Absent];
    s.submit_accepted(21, &scene, &fences, feedback(2, 5, 60), 1, &mut out);
    // The parent moved on, the subsurface did not.
    let scene = vec![layer(1, BufferKey::Client(103), 2), layer(2, B, 5)];
    let seq = s.submit_begin(21, &scene, scene.len()).unwrap().seq;
    s.submit_accepted(21, &scene, &fences, Taken::new(), 2, &mut out);
    let out = present(&mut s, 21, seq, 7_000_000_000);
    assert_eq!(presented(&out)[0].0, 60);
    assert_eq!(presented(&out).len(), 1);
    assert!(!out.contains(&Action::Discarded(60)));
}

#[test]
fn feedback_of_content_not_in_the_frame_is_discarded() {
    let mut s = bound(21);
    let (_, _, out) = submit(&mut s, 21, layer(1, A, 1), feedback(2, 1, 61), 1);
    assert!(out.contains(&Action::Discarded(61)));
    assert_eq!(
        s.views[&21].frames.frames[0].feedback,
        Vec::<Feedback>::new()
    );
}

#[test]
fn fifo_waits_for_the_frame_that_set_the_barrier() {
    let mut s = bound(22);
    submit(&mut s, 22, layer(1, A, 1), Taken::new(), 1);
    let (seq, _, out) = submit(&mut s, 22, layer(1, B, 2), barrier(1, 2, 70), 2);
    assert!(!out.contains(&Action::Cleared(70)));
    let out = present(&mut s, 22, seq - 1, 3);
    assert!(!out.contains(&Action::Cleared(70)));
    let out = present(&mut s, 22, seq, 4);
    assert!(out.contains(&Action::Cleared(70)));
    assert!(out.contains(&Action::Unblock(CLIENT)));
}

#[test]
fn fifo_barriers_clear_on_the_clock_off_screen() {
    let mut s = bound(23);
    let (seq, _, _) = submit(&mut s, 23, layer(1, A, 1), Taken::new(), 1);
    present(&mut s, 23, seq, 2);
    let mut now = 1_000_000_000;
    tick(&mut s, now);
    let mut out = Vec::new();
    s.view_suspended(23, true, now, &mut out);
    let start = now;
    for i in 0..5u64 {
        submit(
            &mut s,
            23,
            layer(1, if i % 2 == 0 { B } else { A }, 2 + i),
            barrier(1, 2 + i, 80 + i),
            now,
        );
        now = s.pacing.tick.unwrap();
        let out = tick(&mut s, now);
        assert!(out.contains(&Action::Cleared(80 + i)));
        assert!(out.contains(&Action::Unblock(CLIENT)));
    }
    assert!(now - start < 1_000_000_000);
}

#[test]
fn a_barrier_of_a_frame_never_reported_goes_stale() {
    let mut s = bound(22);
    let (_, _, out) = submit(&mut s, 22, layer(1, A, 1), barrier(1, 1, 70), 5_000_000_000);
    assert_eq!(ticks(&out), vec![5_000_000_000 + STALE_NS]);
    let out = tick(&mut s, 5_000_000_000 + STALE_NS);
    assert!(!out.contains(&Action::Cleared(70)), "not before it is over");
    let out = tick(&mut s, 5_000_000_001 + STALE_NS);
    assert!(out.contains(&Action::Cleared(70)));
}

#[test]
fn a_refused_frame_holds_its_barriers_to_the_next_refresh() {
    let mut s = shown(33);
    let now = 1_100_000_000;
    let layers = vec![layer(1, B, 2)];
    s.submit_begin(33, &layers, layers.len()).unwrap();
    let mut taken = feedback(1, 2, 90);
    taken.from_surface(1, 2, &Vec::new(), Some(91));
    let mut out = Vec::new();
    s.submit_refused(33, &layers, taken, now, &mut out);
    assert!(out.contains(&Action::Discarded(90)));
    assert!(!out.contains(&Action::Cleared(91)));
    let out = tick(&mut s, ticks(&out)[0]);
    assert!(out.contains(&Action::Cleared(91)));
    assert!(out.contains(&Action::Unblock(CLIENT)));
}

#[test]
fn frames_in_flight_are_bounded() {
    let mut s = bound(3);
    for n in 0..MAX_IN_FLIGHT as u64 {
        submit(&mut s, 3, layer(1, A, n), feedback(1, n, n), n + 1);
    }
    let (_, _, out) = submit(&mut s, 3, layer(1, A, 99), feedback(1, 99, 99), 99);
    assert_eq!(s.views[&3].frames.frames.len(), MAX_IN_FLIGHT);
    assert!(out.contains(&Action::Discarded(0)), "the oldest gives way");
}

#[test]
fn an_unbound_view_shows_nothing_more() {
    let mut s = shown(2);
    let mut out = Vec::new();
    s.toplevel_destroyed(1, &mut out);
    assert!(out.contains(&Action::SubmitEmpty { view_id: 2, seq: 2 }));
    assert!(out.contains(&Action::ReleaseBuffer(100)));
    assert!(out.contains(&Action::ForgetScanout(2)));
    assert_eq!(s.views[&2].seq, 2);
    // It shows nothing already.
    let mut out = Vec::new();
    s.clear_view(2, &mut out);
    assert!(out.is_empty());
}

#[test]
fn everything_is_released_when_the_clock_cannot_run() {
    let mut s = bound(4);
    submit(&mut s, 4, layer(1, A, 1), barrier(1, 1, 70), 1);
    let mut out = Vec::new();
    s.not_shown(Some(8), barrier(9, 1, 71), 5, &mut out);
    let mut out = Vec::new();
    s.release_everything(&vec![9], &mut out);
    assert_eq!(
        out,
        vec![
            Action::Cleared(71),
            Action::Cleared(70),
            Action::Unblock(8),
            Action::Unblock(9),
            Action::Unblock(CLIENT)
        ]
    );
    assert!(s.pacing.loose.is_empty());
}

#[test]
fn a_staged_slot_is_held_while_the_shell_may_read_it() {
    let mut s = bound(4);
    let slot = BufferKey::Staged(5);
    let (_, _, _) = submit(&mut s, 4, layer(1, slot, 1), Taken::new(), 1);
    assert!(s.slot_held(5));
    assert!(!s.slot_held(6));
    let (seq, _, _) = submit(&mut s, 4, layer(1, BufferKey::Staged(6), 2), Taken::new(), 2);
    let out = present(&mut s, 4, seq, 3);
    assert!(out.contains(&Action::ReleaseSlot(5)));
    assert!(!s.slot_held(5));
    assert!(s.slot_held(6));
}

#[test]
fn a_commit_goes_where_its_surface_is_shown() {
    let mut s = bound(4);
    assert_eq!(s.commit(true, Some(1)), Commit::WithParent);
    assert_eq!(s.commit(false, Some(1)), Commit::Submit(4));
    assert_eq!(s.commit(false, Some(2)), Commit::NotShown);
    assert_eq!(s.commit(false, None), Commit::NotShown);
    let mut out = Vec::new();
    s.view_disposed(4, &mut out);
    assert_eq!(s.commit(false, Some(1)), Commit::NotShown);
}

#[test]
fn requests_reach_the_state() {
    let mut s = State::new();
    let mut out = Vec::new();
    let created = Cmd::ViewCreated {
        view_id: 1,
        params: ViewParams::default(),
        size: Some((64, 64)),
    };
    assert!(matches!(s.handle_cmd(created, 1, &mut out), Ask::Nothing));
    assert_eq!(out, vec![Action::OutputScale(1)]);
    assert!(s.views.contains_key(&1));

    let mut out = Vec::new();
    s.handle_cmd(
        Cmd::Focus {
            view_id: 1,
            focused: true,
        },
        2,
        &mut out,
    );
    assert_eq!(out, vec![Action::ReleaseKeys, Action::KeyboardFocus(None)]);
    let mut out = Vec::new();
    let ask = s.handle_cmd(
        Cmd::Key {
            view_id: 1,
            evdev: 30,
            pressed: true,
            time_us: 5_000,
        },
        3,
        &mut out,
    );
    assert!(matches!(
        ask,
        Ask::Key {
            keycode: 38,
            pressed: true,
            time_ms: 5
        }
    ));
    s.handle_cmd(
        Cmd::Presented {
            view_id: 1,
            report: report(1, 9_000),
        },
        4,
        &mut out,
    );
    assert_eq!(s.pacing.clock.ust_ns, 9_000);
    s.handle_cmd(
        Cmd::ViewSuspended {
            view_id: 1,
            suspended: true,
        },
        5,
        &mut out,
    );
    assert!(s.views[&1].suspended);
    assert_eq!(out.last(), Some(&Action::KeyboardFocus(None)));
    s.handle_cmd(
        Cmd::ViewResized {
            view_id: 1,
            width: 9,
            height: 8,
        },
        6,
        &mut out,
    );
    assert_eq!(s.views[&1].size, Some((9, 8)));
    s.handle_cmd(Cmd::ViewDisposed(1), 7, &mut out);
    assert!(s.views.is_empty());
    assert_eq!(s.focused_view, None);
    let mut out = Vec::new();
    s.handle_cmd(Cmd::Quit, 8, &mut out);
    assert_eq!(out, vec![Action::Quit]);
}

/// The client buffers that `out` gives back.
fn given_back(out: &[Action]) -> Vec<u64> {
    out.iter()
        .filter_map(|a| match a {
            Action::ReleaseBuffer(uid) => Some(*uid),
            _ => None,
        })
        .collect()
}

#[test]
fn each_hold_is_given_back_once() {
    let mut s = bound(40);
    let mut back = Vec::new();
    for n in 0..6u64 {
        let l = layer(1, BufferKey::Client(n), n);
        let (seq, _, out) = submit(&mut s, 40, l, Taken::new(), n + 1);
        back.extend(given_back(&out));
        if n == 3 {
            let out = present(&mut s, 40, seq, 1_000);
            back.extend(given_back(&out));
            assert_eq!(back, vec![0, 1, 2], "what is on screen stays");
            assert_eq!(s.views[&40].holds.held(), 1);
        }
    }
    assert!(given_back(&tick(&mut s, 2_000)).is_empty());
    let mut out = Vec::new();
    s.view_disposed(40, &mut out);
    back.extend(given_back(&out));
    assert_eq!(back, vec![0, 1, 2, 3, 4, 5]);
}

#[test]
fn a_refused_frame_gives_its_buffers_back() {
    let mut s = shown(41);
    let layers = vec![layer(1, B, 2), layer(2, BufferKey::Client(102), 1)];
    s.submit_begin(41, &layers, layers.len()).unwrap();
    let mut out = Vec::new();
    s.submit_refused(41, &layers, feedback(1, 2, 80), 1_100_000_000, &mut out);
    assert_eq!(given_back(&out), vec![101, 102]);
    assert!(out.contains(&Action::Discarded(80)));
    assert!(presented(&out).is_empty());
    assert_eq!(s.views[&41].holds.held(), 1);
}

#[test]
fn a_report_covers_the_frames_up_to_it() {
    let mut s = bound(42);
    let mut seqs = Vec::new();
    for n in 0..4u64 {
        let (seq, _, _) = submit(&mut s, 42, layer(1, A, n), feedback(1, n, n), n + 1);
        seqs.push(seq);
    }
    assert!(seqs.windows(2).all(|w| w[0] < w[1]));
    let out = present(&mut s, 42, seqs[1], 1_000);
    assert!(out.contains(&Action::Discarded(0)));
    assert_eq!(presented(&out)[0].0, 1);
    assert_eq!(presented(&out).len(), 1);
    let left: Vec<u64> = s.views[&42].frames.frames.iter().map(|f| f.seq).collect();
    assert_eq!(left, vec![seqs[2], seqs[3]]);
    // Ticking leaves them in order.
    tick(&mut s, 2_000);
    let left: Vec<u64> = s.views[&42].frames.frames.iter().map(|f| f.seq).collect();
    assert_eq!(left, vec![seqs[2], seqs[3]]);
}

#[test]
fn buffers_past_one_that_cannot_be_described_get_no_id() {
    let mut s = bound(43);
    let layers = vec![
        layer(1, A, 1),
        layer(2, B, 1),
        layer(3, BufferKey::Client(102), 1),
    ];
    let sub = s.submit_begin(43, &layers, 1).unwrap();
    assert!(!sub.complete);
    assert_eq!(sub.ids, vec![1, 2]);
    let mut out = Vec::new();
    s.retire_key(BufferKey::Client(102), &mut out);
    assert!(out.is_empty(), "it was never numbered");
    let sub = s.submit_begin(43, &layers, 3).unwrap();
    assert!(sub.complete);
    assert_eq!(sub.ids, vec![1, 2, 3]);
}

#[test]
fn an_unknown_refresh_and_unknown_flags_are_not_told() {
    let told = Report {
        seq: 1,
        ust_ns: 7,
        refresh_ns: 0,
        msc: 9,
        flags: 0x1f,
    }
    .told();
    assert_eq!(
        told,
        Told {
            time_ns: 7,
            refresh_ns: None,
            msc: 9,
            flags: 0xf
        }
    );
}
