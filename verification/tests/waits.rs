use ihs_wl_server::egl_display::EglBuffers;
use ihs_wl_server::waits::{gate_on_readiness, Gate, Waits, MAX_WAITS};

#[test]
fn acquire_and_release_points() {
    // Held until the acquire point signals.
    assert_eq!(
        gate_on_readiness(true, true, Some(false)),
        Gate::AcquirePoint
    );
    // Explicit sync replaces implicit.
    assert_eq!(gate_on_readiness(true, true, Some(true)), Gate::Open);
    assert_eq!(gate_on_readiness(true, true, None), Gate::ImplicitFence);
    assert_eq!(gate_on_readiness(false, true, Some(false)), Gate::Open);
    assert_eq!(gate_on_readiness(true, false, None), Gate::Open);
}

#[test]
fn a_disconnected_clients_waits_are_dropped() {
    let mut w = Waits::new();
    let key = w.next_key(7).unwrap();
    w.hold_commit(7, key);
    assert_eq!(w.reap(7).len(), 1);
    assert_eq!(w.reap(7).len(), 0);
}

#[test]
fn a_client_gets_so_many_waits() {
    let mut w = Waits::new();
    let mut keys = Vec::new();
    for _ in 0..MAX_WAITS {
        let key = w.next_key(7).unwrap();
        w.hold_commit(7, key);
        keys.push(key);
    }
    assert_eq!(w.next_key(7), None);
    // Another client has its own.
    assert!(w.next_key(8).is_some());
    w.ready(7, keys[3]);
    let key = w.next_key(7).unwrap();
    assert!(!keys.contains(&key));
    w.hold_commit(7, key);
    let mut left = w.reap(7);
    left.sort();
    keys.remove(3);
    keys.push(key);
    assert_eq!(left, keys);
}

#[test]
fn buffers_are_imported_once_and_reaped_when_gone() {
    let mut b = EglBuffers::new();
    assert!(!b.known(4));
    b.imported(4);
    b.imported(5);
    b.imported(4);
    assert!(b.known(4));
    assert_eq!(b.reap(&vec![false, true]), vec![4]);
    assert!(!b.known(4));
    assert!(b.known(5));
}
