use ihs_wl_server::action::Action;
use ihs_wl_server::activation::{activation_token, keeps_token};
use ihs_wl_server::error::IhsWlResult;
use ihs_wl_server::params::ViewParams;
use ihs_wl_server::state::State;

const APP: &str = "org.example.activation";

fn params(token: Option<&str>, app_id: Option<&str>) -> ViewParams {
    ViewParams {
        token: token.map(|t| t.to_string()),
        app_id: app_id.map(|a| a.to_string()),
        dpr: None,
    }
}

/// A client with a mapped toplevel of this app_id.
fn mapped(s: &mut State, surface: u64, client: u64, app_id: &str) -> (i64, Vec<Action>) {
    let id = s.add_toplevel(surface, Some(client));
    s.name_toplevel(id, app_id.to_string(), "activation".to_string());
    let mut out = Vec::new();
    assert!(s.toplevel_commit(id, &mut out));
    (id, out)
}

fn create(s: &mut State, view: i32, params: ViewParams) -> Vec<Action> {
    let mut out = Vec::new();
    s.view_created(view, params, Some((64, 64)), &mut out);
    out
}

fn activate(s: &mut State, token: &str, toplevel: i64) -> Vec<Action> {
    let mut out = Vec::new();
    s.request_activation(token.to_string(), Some(toplevel), &mut out);
    out
}

fn bindings(actions: &[Action], view: i32) -> Vec<i64> {
    actions
        .iter()
        .filter_map(|a| match a {
            Action::Bound {
                view_id,
                toplevel_id,
            } if *view_id == view => Some(*toplevel_id),
            _ => None,
        })
        .collect()
}

#[test]
fn a_token_view_binds_the_toplevel_activated_with_it() {
    let mut s = State::new();
    s.issue_activation_token("t".to_string());
    // Older, same app_id, not launched with the token.
    let (a, _) = mapped(&mut s, 10, 1, APP);
    let (b, _) = mapped(&mut s, 20, 2, APP);
    assert_eq!((a, b), (1, 2));
    assert!(activate(&mut s, "t", b).is_empty());

    let out = create(&mut s, 1, params(Some("t"), Some(APP)));
    assert_eq!(bindings(&out, 1), vec![2]);
    // An app_id view gets the other one.
    let out = create(&mut s, 2, params(None, Some(APP)));
    assert_eq!(bindings(&out, 2), vec![1]);
}

#[test]
fn the_token_view_takes_its_toplevel_from_an_app_id_view() {
    let mut s = State::new();
    s.issue_activation_token("t".to_string());
    create(&mut s, 1, params(None, Some(APP)));
    create(&mut s, 2, params(Some("t"), None));
    // Maps before it activates: the app_id view takes it first.
    let (b, out) = mapped(&mut s, 20, 2, APP);
    assert_eq!(bindings(&out, 1), vec![1]);
    let out = activate(&mut s, "t", b);
    assert_eq!(bindings(&out, 2), vec![1]);
    // And it is not given back.
    assert!(bindings(&out, 1).is_empty());
    assert_eq!(s.views[&1].toplevel, None);
    assert_eq!(s.views[&2].toplevel, Some(1));
    assert_eq!(s.toplevels[&1].view, Some(2));
}

#[test]
fn a_token_view_waits_for_its_client() {
    let mut s = State::new();
    s.issue_activation_token("t".to_string());
    create(&mut s, 1, params(Some("t"), Some(APP)));
    let (a, out) = mapped(&mut s, 10, 1, APP);
    assert!(bindings(&out, 1).is_empty());
    // A token the client made itself binds nothing.
    assert!(activate(&mut s, "own", a).is_empty());

    let (b, out) = mapped(&mut s, 20, 2, APP);
    assert!(bindings(&out, 1).is_empty());
    assert_eq!(bindings(&activate(&mut s, "t", b), 1), vec![2]);
    // Used up: another toplevel activating with it binds nothing more.
    assert!(activate(&mut s, "t", a).is_empty());
    assert_eq!(s.toplevels[&a].token, None);
}

#[test]
fn a_token_needs_room() {
    assert_eq!(
        activation_token(true, true, 8, 32),
        Err(IhsWlResult::ErrTooSmall)
    );
    assert_eq!(
        activation_token(true, false, 64, 32),
        Err(IhsWlResult::ErrInvalid)
    );
    // Room for the zero that ends it too.
    assert_eq!(
        activation_token(true, true, 32, 32),
        Err(IhsWlResult::ErrTooSmall)
    );
    assert_eq!(activation_token(true, true, 33, 32), Ok(32));
}

#[test]
fn no_token_without_a_server() {
    assert_eq!(
        activation_token(false, true, 64, 32),
        Err(IhsWlResult::ErrNotRunning)
    );
}

#[test]
fn issued_tokens_wait_and_client_tokens_do_not() {
    assert!(keeps_token(true, 1_000_000));
    assert!(keeps_token(false, 59));
    assert!(!keeps_token(false, 60));
}

#[test]
fn a_toplevel_is_shown_by_one_view() {
    let mut s = State::new();
    let (id, _) = mapped(&mut s, 10, 1, APP);
    assert_eq!(
        bindings(&create(&mut s, 1, params(None, Some(APP))), 1),
        vec![id]
    );
    let out = create(&mut s, 2, params(None, Some(APP)));
    assert!(bindings(&out, 2).is_empty());
    assert_eq!(s.toplevels[&id].view, Some(1));
}

#[test]
fn a_view_waiting_binds_a_toplevel_that_is_freed() {
    let mut s = State::new();
    let (a, _) = mapped(&mut s, 10, 1, APP);
    create(&mut s, 1, params(None, Some(APP)));
    let mut out = Vec::new();
    s.view_disposed(1, &mut out);
    assert_eq!(s.toplevels[&a].view, None);
    assert_eq!(
        bindings(&create(&mut s, 2, params(None, None)), 2),
        vec![a],
        "a view that names nothing binds any toplevel"
    );
}

#[test]
fn an_unmapped_toplevel_is_not_bound() {
    let mut s = State::new();
    let id = s.add_toplevel(10, Some(1));
    s.name_toplevel(id, APP.to_string(), String::new());
    assert!(bindings(&create(&mut s, 1, params(None, Some(APP))), 1).is_empty());
    let mut out = Vec::new();
    assert!(s.toplevel_commit(id, &mut out));
    assert_eq!(bindings(&out, 1), vec![id]);
    // Mapped once only.
    let mut out = Vec::new();
    assert!(!s.toplevel_commit(id, &mut out));
    assert!(out.is_empty());
}

#[test]
fn a_destroyed_toplevel_leaves_its_view_for_another() {
    let mut s = State::new();
    let (a, _) = mapped(&mut s, 10, 1, APP);
    create(&mut s, 1, params(None, Some(APP)));
    let mut out = Vec::new();
    assert_eq!(s.toplevel_destroyed(a, &mut out), Some(APP.to_string()));
    assert_eq!(s.views[&1].toplevel, None);
    assert!(!s.toplevels.contains_key(&a));
    // The id is not given out again.
    let (b, out) = mapped(&mut s, 20, 1, APP);
    assert_eq!(b, 2);
    assert_eq!(bindings(&out, 1), vec![2]);
    let mut out = Vec::new();
    assert_eq!(s.toplevel_destroyed(99, &mut out), None);
}

#[test]
fn a_token_marks_one_toplevel_and_no_other_token() {
    let mut s = State::new();
    s.issue_activation_token("t".to_string());
    s.issue_activation_token("u".to_string());
    let (a, _) = mapped(&mut s, 10, 1, APP);
    let (b, _) = mapped(&mut s, 20, 2, APP);
    // A client's own.
    assert!(activate(&mut s, "own", a).is_empty());
    assert_eq!(s.toplevels[&a].token, None);
    activate(&mut s, "t", b);
    assert_eq!(s.toplevels[&a].token, None);
    assert_eq!(s.toplevels[&b].token.as_deref(), Some("t"));
    assert_eq!(s.tokens, vec!["u".to_string()]);
    // Used up.
    assert!(activate(&mut s, "t", a).is_empty());
    assert_eq!(s.toplevels[&a].token, None);
}

#[test]
fn a_toplevel_mapped_after_its_activation_goes_to_the_token_view() {
    let mut s = State::new();
    s.issue_activation_token("t".to_string());
    create(&mut s, 1, params(None, None));
    create(&mut s, 2, params(Some("t"), None));
    let id = s.add_toplevel(10, Some(1));
    assert!(activate(&mut s, "t", id).is_empty());
    let mut out = Vec::new();
    s.toplevel_commit(id, &mut out);
    assert!(bindings(&out, 1).is_empty());
    assert_eq!(bindings(&out, 2), vec![id]);
}
