use ihs_wl_server::action::Action;
use ihs_wl_server::config::{Bind, Binding, Config};
use ihs_wl_server::error::{Error, IhsWlResult};
use ihs_wl_server::observe::{
    client_added, client_removed, emit, observer, set_observer, Observed, Slot,
};
use ihs_wl_server::params::ViewParams;
use ihs_wl_server::state::State;
use ihs_wl_server::thread::{is_running, send, socket_name, stop, stopped, Server, StartUp};
use ihs_wl_server::view::{
    configured_side, created_size, factory, handed_over, negotiated, requirements, Answer, Creating,
    Link, SyncKind, ViewLink, ZOrder,
};

#[test]
fn maps_a_toplevel_under_the_mock_host() {
    let mut s = State::new();
    let id = s.add_toplevel(1, Some(7));
    s.name_toplevel(
        id,
        "org.example.simple-shm".to_string(),
        "simple-shm".to_string(),
    );
    let mut out = Vec::new();
    assert!(s.toplevel_commit(id, &mut out));
    assert_eq!(s.toplevels[&id].title, "simple-shm");

    // The registry's side of a view: create negotiates a grant, dispose ends it.
    assert_eq!(factory(true, true), Creating::Negotiate);
    assert_eq!(negotiated(0), Creating::Send);
    assert_eq!(handed_over(true), Answer::Created);
    s.view_created(
        7,
        ViewParams::default(),
        created_size(800, 480),
        &mut out,
    );
    let mut out = Vec::new();
    s.view_resized(7, 1600, 960, &mut out);
    assert_eq!(s.views[&7].size, Some((1600, 960)));
    assert_eq!(out, vec![Action::Configure(7)]);
    s.view_disposed(7, &mut out);
    assert!(s.views.is_empty());

    let mut out = Vec::new();
    assert_eq!(
        s.toplevel_destroyed(id, &mut out).as_deref(),
        Some("org.example.simple-shm")
    );
    assert!(s.toplevels.is_empty());
}

#[test]
fn c_abi_start_stop_x100() {
    let mut server = Server::new();
    for i in 0..100 {
        assert_eq!(server.start(), Ok(None), "start #{i}");
        let bound = StartUp::Listening("ihs-wl-test-cycle".to_string());
        assert_eq!(server.started(bound), Ok(()));
        assert!(is_running(&server));
        assert_eq!(socket_name(&server).as_deref(), Some("ihs-wl-test-cycle"));
        assert!(stop(&mut server).is_ok());
        assert_eq!(stopped(false), Ok(()));
        assert_eq!(socket_name(&server), None);
    }
}

#[test]
fn c_abi_rejects_bad_config_and_double_start() {
    let invalid = IhsWlResult::ErrInvalid.code();
    assert_eq!(Config::check(false, 0, 16).unwrap_err().code, invalid);
    let short = Config::check(true, 4, 16).unwrap_err();
    assert_eq!(short.code, invalid);
    assert!(short.message.contains("struct_size"), "{short:?}");
    assert_eq!(Config::check(true, 16, 16), Ok(()));
    assert_eq!(Config::check(true, 24, 16), Ok(()));

    let mut server = Server::new();
    assert_eq!(server.start(), Ok(None));
    let bound = StartUp::Listening("ihs-wl-test-double".to_string());
    assert_eq!(server.started(bound), Ok(()));
    assert_eq!(
        server.start().unwrap_err().code,
        IhsWlResult::ErrAlreadyRunning.code()
    );
    assert!(stop(&mut server).is_ok());
    // Nothing to stop.
    assert_eq!(
        stop(&mut server).unwrap_err().code,
        IhsWlResult::ErrNotRunning.code()
    );
}

#[test]
fn a_server_that_died_may_be_started_again() {
    let mut server = Server::new();
    server
        .started(StartUp::Listening("wayland-0".to_string()))
        .unwrap();
    server.running.as_mut().unwrap().finished = true;
    assert!(!is_running(&server));
    let dead = server.start().unwrap();
    assert_eq!(dead.unwrap().socket_name, "wayland-0");
    assert!(server.running.is_none());
}

#[test]
fn a_failed_start_says_why() {
    let mut server = Server::new();
    let why = Error::io("no runtime directory".to_string());
    let e = server.started(StartUp::Failed(why)).unwrap_err();
    assert_eq!(e.code, IhsWlResult::ErrIo.code());
    assert_eq!(e.text(), "no runtime directory (code -2)");
    let e = server.started(StartUp::Exited).unwrap_err();
    assert_eq!(e.code, IhsWlResult::ErrInternal.code());
    assert!(!is_running(&server));
    assert_eq!(stopped(true).unwrap_err().code, e.code);
}

#[test]
fn commands_need_a_server() {
    let mut server = Server::new();
    assert_eq!(
        send(&server, true).unwrap_err().message,
        "server not running"
    );
    server
        .started(StartUp::Listening("wayland-0".to_string()))
        .unwrap();
    assert_eq!(send(&server, true), Ok(()));
    let e = send(&server, false).unwrap_err();
    assert_eq!(e.message, "compositor thread has exited");
    assert_eq!(e.code, IhsWlResult::ErrNotRunning.code());
}

#[test]
fn result_codes() {
    let codes: Vec<i32> = [
        IhsWlResult::Success,
        IhsWlResult::ErrInvalid,
        IhsWlResult::ErrIo,
        IhsWlResult::ErrInternal,
        IhsWlResult::ErrAlreadyRunning,
        IhsWlResult::ErrNotRunning,
        IhsWlResult::ErrTooSmall,
    ]
    .iter()
    .map(|r| r.code())
    .collect();
    assert_eq!(codes, vec![0, -1, -2, -3, -4, -5, -6]);
    assert_eq!(Error::new(5, String::new()).text(), " (code 5)");
    assert_eq!(Error::invalid(String::new()).code, -1);
    assert_eq!(Error::internal(String::new()).code, -3);
}

#[test]
fn a_free_socket_name_is_found() {
    let mut b = Binding::new(&Config::default(), false);
    assert_eq!(b.name(), "wayland-0");
    for n in 1..32 {
        assert_eq!(b.tried(Bind::InUse("in use".to_string())), Ok(false));
        assert_eq!(b.name(), format!("wayland-{n}"));
    }
    let e = b.tried(Bind::InUse("in use".to_string())).unwrap_err();
    assert_eq!(e.message, "no free socket name wayland-0..31");
    assert_eq!(e.code, IhsWlResult::ErrIo.code());

    let mut b = Binding::new(&Config::default(), true);
    assert_eq!(b.name(), "wayland-ihs-0");
    assert_eq!(b.tried(Bind::Bound), Ok(true));
    let e = b.tried(Bind::Failed("denied".to_string())).unwrap_err();
    assert_eq!(e.message, "bind wayland-ihs-0: denied");
}

#[test]
fn a_socket_name_asked_for_is_not_replaced() {
    let config = Config {
        socket_name: Some("mine".to_string()),
    };
    let mut b = Binding::new(&config, true);
    assert_eq!(b.name(), "mine");
    let e = b.tried(Bind::InUse("taken".to_string())).unwrap_err();
    assert_eq!(e.message, "bind mine: taken");
}

#[test]
fn a_view_is_refused_as_the_shell_expects() {
    assert_eq!(factory(false, true), Creating::Done(Answer::Invalid));
    assert_eq!(factory(true, false), Creating::Done(Answer::NoBackend));
    assert_eq!(negotiated(-7), Creating::Done(Answer::Refused(-7)));
    assert_eq!(handed_over(false), Answer::NoBackend);
    let r = requirements();
    assert!(r.dmabuf_import && r.software_shm && r.needs_alpha);
    assert_eq!(r.sync, SyncKind::ExplicitPreferred);
    assert_eq!(r.z_order, ZOrder::Inline);
}

#[test]
fn a_disposed_view_is_submitted_to_no_more() {
    let mut link = Link {
        link: Some(ViewLink {
            view: 4,
            granted_kind: 1,
        }),
    };
    assert_eq!(link.target(), Some(4));
    link.renegotiated(Some(2));
    assert_eq!(link.link.unwrap().granted_kind, 2);
    assert_eq!(link.submit_target(), Some(4));
    // Nothing is submitted until the next negotiation that succeeds.
    link.renegotiated(None);
    assert_eq!(link.link.unwrap().granted_kind, 0);
    assert_eq!(link.submit_target(), None);
    assert_eq!(link.target(), Some(4));
    link.renegotiated(Some(1));
    assert_eq!(link.submit_target(), Some(4));
    link.dispose();
    assert_eq!(link.target(), None);
    assert_eq!(link.submit_target(), None);
    link.renegotiated(Some(3));
    assert_eq!(link.target(), None);
}

#[test]
fn sizes_are_a_pixel_at_least() {
    assert_eq!(created_size(640, 480), Some((640, 480)));
    assert_eq!(created_size(0, 480), None);
    assert_eq!(created_size(640, -1), None);
    assert_eq!(configured_side(0), 1);
    assert_eq!(configured_side(427), 427);
}

#[test]
fn one_observer_at_a_time() {
    let mut slot = Slot { observer: None };
    assert_eq!(observer(&slot), None);
    assert_eq!(set_observer(&mut slot, Some("a")), None);
    assert_eq!(observer(&slot), Some(&"a"));
    assert_eq!(set_observer(&mut slot, Some("b")), Some("a"));
    assert_eq!(set_observer(&mut slot, None), Some("b"));
    assert_eq!(client_added(0), 1);
    assert_eq!(client_removed(1), 0);
    assert_eq!(client_removed(0), 0);
}

#[test]
fn the_observer_hears_of_each_event_once() {
    let heard = std::cell::RefCell::new(Vec::new());
    let event = Observed::ClientCount(3);
    let f = |e: &Observed| heard.borrow_mut().push(e.clone());
    let mut slot = Slot { observer: Some(&f) };
    let to = observer(&slot).copied();
    emit(to, &event);
    assert_eq!(*heard.borrow(), vec![Observed::ClientCount(3)]);
    // Cleared, it hears nothing more.
    set_observer(&mut slot, None);
    emit(observer(&slot).copied(), &event);
    assert_eq!(heard.borrow().len(), 1);
}
