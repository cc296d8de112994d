use ihs_wl_server::timing::FrameClock;

#[test]
fn vblank_prediction() {
    let mut c = FrameClock::default();
    c.update(1_000, 100);
    assert_eq!(c.next_vblank(1_000), 1_100);
    assert_eq!(c.next_vblank(1_050), 1_100);
    assert_eq!(c.next_vblank(1_099), 1_100);
    assert_eq!(c.next_vblank(500), 1_000);
    // A report of an older frame never moves the phase back.
    c.update(900, 0);
    assert_eq!(c.next_vblank(1_000), 1_100);
    assert_eq!(c.refresh_ns, 100);
}

#[test]
fn release_time() {
    let mut c = FrameClock::default();
    c.update(10_000_000, 1_000_000);
    // A target on a vblank: released a refresh before it.
    assert_eq!(c.release_at(15_000_000), 14_000_000);
    // Just after one: the next vblank is the first at or after it.
    assert_eq!(c.release_at(15_600_000), 15_000_000);
    // Within the slack of one counts as on it.
    assert_eq!(c.release_at(15_400_000), 14_000_000);
}
