use ihs_wl_server::action::Action;
use ihs_wl_server::pacing::{sooner_of, Pacing, Timer, MAX_LOOSE, MIN_TICK_NS};
use ihs_wl_server::reports::frame_time_ms;
use ihs_wl_server::state::State;
use ihs_wl_server::timing::{
    bump_generation, generation, FrameClock, Generation, Report, DEFAULT_REFRESH_NS,
};

const REFRESH_NS: u32 = 16_666_667;

#[test]
fn a_timed_commit_waits_for_its_target() {
    let mut s = State::new();
    let now = 10_000_000_000;
    let mut out = Vec::new();
    let report = Report {
        seq: 1,
        ust_ns: now,
        refresh_ns: REFRESH_NS,
        msc: 1,
        flags: 0,
    };
    // Lock the clock's phase to now.
    s.frame_presented(24, report, &mut out);
    s.pacing.watch_target(1, now, &mut out);
    assert_eq!(s.pacing.timed, vec![1]);

    let target = now + 150_000_000;
    let waiting = vec![Timer {
        alive: true,
        released: false,
        client: Some(7),
        pending: Some(target),
    }];
    let mut out = Vec::new();
    s.on_tick(now + 1_000_000, &waiting, &mut out);
    let at = s.pacing.tick.unwrap();
    assert_eq!(at, s.pacing.clock.release_at(target));
    assert!(at >= target - REFRESH_NS as u64 - 1_000_000);
    assert!(at < target);
    assert!(!out.contains(&Action::Unblock(7)), "applied before its time");

    // The clock ticked then: the update is released, and its client goes on.
    let done = vec![Timer {
        alive: true,
        released: true,
        client: Some(7),
        pending: None,
    }];
    let mut out = Vec::new();
    s.on_tick(at, &done, &mut out);
    assert!(out.contains(&Action::Unblock(7)));
    assert!(s.pacing.timed.is_empty());
    assert_eq!(s.pacing.tick, None);
}

#[test]
fn updates_are_released_a_refresh_ahead() {
    let mut c = FrameClock::default();
    c.update(10_000_000, 1_000_000);
    // Everything due by the tick is what is shown at the next refresh.
    assert_eq!(c.due(14_000_000), 15_000_000 + 500_000);
    assert_eq!(c.release_at(15_000_000), 14_000_000);
}

#[test]
fn a_surface_that_is_gone_is_watched_no_more() {
    let mut s = State::new();
    let mut out = Vec::new();
    s.pacing.watch_target(1, 5, &mut out);
    s.pacing.watch_target(2, 5, &mut out);
    s.pacing.watch_target(1, 6, &mut out);
    assert_eq!(s.pacing.timed, vec![1, 2]);
    let timers = vec![
        Timer {
            alive: false,
            released: false,
            client: None,
            pending: None,
        },
        Timer {
            alive: true,
            released: false,
            client: Some(3),
            pending: Some(1_000_000_000_000),
        },
    ];
    let mut out = Vec::new();
    s.on_tick(1_000_000, &timers, &mut out);
    assert_eq!(s.pacing.timed, vec![2]);
}

#[test]
fn the_sooner_tick_is_kept() {
    let mut p = Pacing::new();
    let mut out = Vec::new();
    p.schedule_tick(100, &mut out);
    p.schedule_tick(200, &mut out);
    p.schedule_tick(50, &mut out);
    assert_eq!(out, vec![Action::Tick(100), Action::Tick(50)]);
    assert_eq!(sooner_of(Some(4), Some(3)), Some(3));
    assert_eq!(sooner_of(None, Some(3)), Some(3));
    assert_eq!(sooner_of(Some(4), None), Some(4));
    assert_eq!(sooner_of(None, None), None);
}

#[test]
fn barriers_of_surfaces_no_view_shows_are_bounded() {
    let mut p = Pacing::new();
    let mut out = Vec::new();
    let barriers: Vec<u64> = (0..MAX_LOOSE as u64 + 2).collect();
    p.hold_loose(Some(7), &barriers, 1, &mut out);
    assert_eq!(p.loose.len(), MAX_LOOSE);
    let cleared: Vec<&Action> = out
        .iter()
        .filter(|a| matches!(a, Action::Cleared(_)))
        .collect();
    assert_eq!(cleared.len(), 2);
    // Without a client there is nobody to hold up.
    let mut out = Vec::new();
    p.hold_loose(None, &vec![900], 1, &mut out);
    assert_eq!(out, vec![Action::Cleared(900)]);
}

#[test]
fn a_tick_is_not_asked_for_at_once() {
    let mut s = State::new();
    let mut out = Vec::new();
    s.pacing.watch_target(1, 5, &mut out);
    let overdue = vec![Timer {
        alive: true,
        released: false,
        client: None,
        pending: Some(1),
    }];
    s.on_tick(1_000_000_000, &overdue, &mut out);
    assert_eq!(s.pacing.tick, Some(1_000_000_000 + MIN_TICK_NS));
}

#[test]
fn without_a_report_the_clock_runs_at_sixty() {
    let c = FrameClock::default();
    assert_eq!(c.refresh_ns, DEFAULT_REFRESH_NS);
    assert_eq!(c.next_vblank(0), DEFAULT_REFRESH_NS);
}

#[test]
fn frame_times_are_milliseconds_and_wrap() {
    assert_eq!(frame_time_ms(1_999_999), 1);
    assert_eq!(frame_time_ms(0x1_0000_0000 * 1_000_000 + 7_000_000), 7);
}

#[test]
fn generations_count_up_from_none() {
    assert_eq!(generation(None), 0);
    let first = bump_generation(None);
    assert_eq!(generation(Some(first)), 1);
    assert_eq!(generation(Some(bump_generation(Some(Generation(41))))), 42);
}
