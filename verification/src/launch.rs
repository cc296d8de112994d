//! Which view the toplevel of a launched client goes to.
//!
//! A client is launched with an activation token that a view names. The client
//! activates its toplevel with the token, before or after it is mapped, and the
//! toplevel goes to that view.

use vstd::prelude::*;

use crate::action::Action;
use crate::buffers::BufferKey;
use crate::commands::Cmd;
use crate::holds::HoldsModel;
use crate::pacing::{PacingModel, Timer};
use crate::state::{StateModel, ToplevelModel, ViewModel};
use crate::submit::{Fence, Layer};
use crate::timing::Taken;

verus! {

/// What binding one view does to the others, and to each toplevel: only a
/// toplevel that nothing showed and that the view wants may change hands, and
/// none is renamed.
pub proof fn one_binding(s: StateModel, v: i32)
    requires
        s.bindings_wf(),
    ensures
        ({
            let n = s.try_bind(v).0;
            &&& n.bindings_wf()
            &&& n.views.dom() == s.views.dom()
            &&& n.toplevels.dom() == s.toplevels.dom()
            &&& n.tokens == s.tokens
            &&& forall|w: i32|
                #![trigger n.views[w]]
                n.views[w].token == s.views[w].token && (n.views[w] == s.views[w] || (w == v
                    && s.views.contains_key(v) && s.views[v].toplevel is None
                    && n.views[v].toplevel is Some && s.may_bind(v, n.views[v].toplevel->0)))
            &&& forall|u: i64|
                #![trigger n.toplevels[u]]
                n.toplevels[u] == (ToplevelModel {
                    view: n.toplevels[u].view,
                    ..s.toplevels[u]
                }) && (n.toplevels[u].view == s.toplevels[u].view || (s.toplevels[u].view is None
                    && n.toplevels[u].view == Some(v) && s.may_bind(v, u)))
        }),
{
    if s.views.contains_key(v) && s.views[v].toplevel is None && s.oldest_for(v) is Some {
        let t = s.oldest_for(v)->0;
        assert(s.is_oldest(v, t));
        crate::state::binding_is_kept(s, v, t);
        assert(s.bound(v, t).views.dom() =~= s.views.dom());
        assert(s.bound(v, t).toplevels.dom() =~= s.toplevels.dom());
    }
}

/// What binding each of `ids` does to the others, and to each toplevel.
pub proof fn each_binding(s: StateModel, ids: Seq<i32>)
    requires
        s.bindings_wf(),
    ensures
        ({
            let n = s.bind_each(ids).0;
            &&& n.bindings_wf()
            &&& n.views.dom() == s.views.dom()
            &&& n.toplevels.dom() == s.toplevels.dom()
            &&& n.tokens == s.tokens
            &&& forall|w: i32|
                #![trigger n.views[w]]
                n.views[w].token == s.views[w].token && (!ids.contains(w) ==> n.views[w]
                    == s.views[w])
            &&& forall|u: i64|
                #![trigger n.toplevels[u]]
                n.toplevels[u] == (ToplevelModel { view: n.toplevels[u].view, ..s.toplevels[u] })
                    && (n.toplevels[u].view == s.toplevels[u].view || (s.toplevels[u].view is None
                    && n.toplevels[u].view is Some && s.may_bind(n.toplevels[u].view->0, u)))
        }),
    decreases ids.len(),
{
    if ids.len() > 0 {
        let d = ids.drop_last();
        let v = ids.last();
        each_binding(s, d);
        let b = s.bind_each(d).0;
        one_binding(b, v);
        let n = s.bind_each(ids).0;
        assert(n == b.try_bind(v).0);
        assert forall|w: i32|
            #![trigger n.views[w]]
            n.views[w].token == s.views[w].token && (!ids.contains(w) ==> n.views[w]
                == s.views[w]) by {
            assert(n.views[w].token == b.views[w].token);
            assert(b.views[w].token == s.views[w].token);
            if !ids.contains(w) {
                assert(ids[ids.len() - 1] == v);
                assert(!d.contains(w)) by {
                    if d.contains(w) {
                        let i = choose|i: int| 0 <= i < d.len() && d[i] == w;
                        assert(ids[i] == w);
                    }
                }
            }
        }
        assert forall|u: i64|
            #![trigger n.toplevels[u]]
            n.toplevels[u] == (ToplevelModel { view: n.toplevels[u].view, ..s.toplevels[u] }) && (
            n.toplevels[u].view == s.toplevels[u].view || (s.toplevels[u].view is None
                && n.toplevels[u].view is Some && s.may_bind(n.toplevels[u].view->0, u))) by {
            assert(b.toplevels[u] == (ToplevelModel {
                view: b.toplevels[u].view,
                ..s.toplevels[u]
            }));
            if n.toplevels[u].view != b.toplevels[u].view {
                assert(b.may_bind(v, u));
                assert(b.views[v].token == s.views[v].token);
                bindings_leave_wishes(s, d, v);
            }
        }
    }
}

/// Binding views changes neither the token nor the app_id that one names.
pub proof fn bindings_leave_wishes(s: StateModel, ids: Seq<i32>, w: i32)
    ensures
        s.bind_each(ids).0.views[w].token == s.views[w].token,
        s.bind_each(ids).0.views[w].app_id == s.views[w].app_id,
    decreases ids.len(),
{
    if ids.len() > 0 {
        bindings_leave_wishes(s, ids.drop_last(), w);
    }
}

/// Whether `t` alone of the toplevels carries `token`.
pub open spec fn carries_alone(s: StateModel, t: i64, token: Seq<char>) -> bool {
    &&& s.toplevels.contains_key(t)
    &&& s.toplevels[t].token == Some(token)
    &&& forall|u: i64| #[trigger]
        s.toplevels.contains_key(u) && s.toplevels[u].token == Some(token) ==> u == t
}

/// Whether view `v` shows nothing and names `token`.
pub open spec fn waits_for(s: StateModel, v: i32, token: Seq<char>) -> bool {
    s.views.contains_key(v) && s.views[v].toplevel is None && s.views[v].token == Some(token)
}

/// Whether a view naming `token` shows toplevel `t`.
pub open spec fn shown_for(s: StateModel, t: i64, token: Seq<char>) -> bool {
    &&& s.toplevels.contains_key(t)
    &&& s.toplevels[t].view is Some
    &&& s.views.contains_key(s.toplevels[t].view->0)
    &&& s.views[s.toplevels[t].view->0].token == Some(token)
    &&& s.views[s.toplevels[t].view->0].toplevel == Some(t)
}

/// Of `ids`, a view that waits for a toplevel carrying its token, or another
/// that names the token, gets it.
proof fn a_named_toplevel_is_bound(
    s: StateModel,
    ids: Seq<i32>,
    v: i32,
    t: i64,
    token: Seq<char>,
)
    requires
        s.bindings_wf(),
        carries_alone(s, t, token),
        s.toplevels[t].mapped,
        s.toplevels[t].view is None,
        waits_for(s, v, token),
        ids.contains(v),
    ensures
        shown_for(s.bind_each(ids).0, t, token),
    decreases ids.len(),
{
    let d = ids.drop_last();
    let last = ids.last();
    let b = s.bind_each(d).0;
    let n = s.bind_each(ids).0;
    each_binding(s, d);
    each_binding(s, ids);
    one_binding(b, last);
    assert(n == b.try_bind(last).0);
    assert(b.toplevels[t].token == Some(token));
    assert(b.toplevels.contains_key(t) && n.toplevels.contains_key(t));
    if b.toplevels[t].view is Some {
        // Only a view naming the token wants it.
        let w = b.toplevels[t].view->0;
        assert(s.may_bind(w, t));
        assert(n.toplevels[t].view == Some(w));
        assert(n.views[w].token == s.views[w].token);
    } else {
        if d.contains(v) {
            a_named_toplevel_is_bound(s, d, v, t, token);
        }
        let i = choose|i: int| 0 <= i < ids.len() && ids[i] == v;
        if i < d.len() {
            assert(d[i] == v);
        }
        assert(last == v);
        assert(b.views[v] == s.views[v]);
        assert(b.may_bind(v, t));
        crate::state::a_view_is_not_kept_waiting(b, v, t);
        let u = b.oldest_for(v)->0;
        crate::state::an_oldest_exists(b, v, t);
        assert(b.is_oldest(v, u));
        assert(b.toplevels[u].token == Some(token));
        assert(s.toplevels.contains_key(u));
        assert(s.toplevels[u].token == b.toplevels[u].token);
        assert(u == t);
    }
}

/// A toplevel that is mapped with a token goes to a view naming the token,
/// where one is waiting.
pub proof fn mapping_gives_a_token_view_its_toplevel(
    s: StateModel,
    v: i32,
    t: i64,
    token: Seq<char>,
)
    requires
        s.bindings_wf(),
        carries_alone(s, t, token),
        !s.toplevels[t].mapped,
        s.toplevels[t].view is None,
        waits_for(s, v, token),
    ensures
        shown_for(s.mapping(t).0, t, token),
{
    let n = s.put_toplevel(t, ToplevelModel { mapped: true, ..s.toplevels[t] });
    crate::state::toplevel_edits_keep_wf(s, t, n.toplevels[t]);
    crate::maps::every_set_can_be_listed(n.views.dom());
    let ids = crate::maps::listed(n.views.dom());
    assert(n.views.dom().contains(v));
    assert(ids.contains(v));
    a_named_toplevel_is_bound(n, ids, v, t, token);
}

/// A toplevel that is activated with an issued token goes to a view naming the
/// token, where one is waiting or shows it already: a view that took it by
/// app_id gives it up.
pub proof fn a_token_view_gets_its_toplevel(s: StateModel, v: i32, t: i64, token: Seq<char>)
    requires
        s.bindings_wf(),
        s.tokens.contains(token),
        s.toplevels.contains_key(t),
        s.toplevels[t].mapped,
        forall|u: i64| #[trigger]
            s.toplevels.contains_key(u) && s.toplevels[u].token == Some(token) ==> u == t,
        waits_for(s, v, token) || (s.shown_by(v) == Some(t) && s.views[v].token == Some(token)),
    ensures
        shown_for(s.activating(token, Some(t)).0, t, token),
{
    let used = StateModel { tokens: s.tokens.filter(crate::state::not_token(token)), ..s };
    let named = used.put_toplevel(t, ToplevelModel { token: Some(token), ..used.toplevels[t] });
    assert(used.bindings_wf());
    crate::state::toplevel_edits_keep_wf(used, t, named.toplevels[t]);
    assert(carries_alone(named, t, token)) by {
        assert forall|u: i64| #[trigger]
            named.toplevels.contains_key(u) && named.toplevels[u].token == Some(
                token,
            ) implies u == t by {
            if u != t {
                assert(s.toplevels.contains_key(u));
            }
        }
    }
    assert(named.wanted(token)) by {
        assert(named.views.contains_key(v));
    }
    match named.toplevels[t].view {
        Some(w) => {
            assert(named.views.contains_key(w) && named.views[w].toplevel == Some(t));
            if named.views[w].token != Some(token) {
                crate::state::unbinding_is_kept(named, w);
                let freed = named.unbinding(w).0;
                unbinding_frees_one(named, w);
                assert(carries_alone(freed, t, token));
                assert(v != w);
                assert(waits_for(freed, v, token));
                crate::maps::every_set_can_be_listed(freed.views.dom());
                let ids = crate::maps::listed(freed.views.dom());
                assert(freed.views.dom().contains(v));
                assert(ids.contains(v));
                a_named_toplevel_is_bound(freed, ids, v, t, token);
            }
        },
        None => {
            crate::maps::every_set_can_be_listed(named.views.dom());
            let ids = crate::maps::listed(named.views.dom());
            assert(named.views.dom().contains(v));
            assert(ids.contains(v));
            a_named_toplevel_is_bound(named, ids, v, t, token);
        },
    }
}

/// A view created after the toplevel was activated with the token it names
/// shows that toplevel, if no view does.
pub proof fn a_new_token_view_shows_its_toplevel(
    s: StateModel,
    v: i32,
    view: ViewModel,
    t: i64,
    token: Seq<char>,
)
    requires
        s.bindings_wf(),
        !s.views.contains_key(v),
        view.toplevel is None,
        view.token == Some(token),
        carries_alone(s, t, token),
        s.toplevels[t].mapped,
        s.toplevels[t].view is None,
    ensures
        s.creating(v, view).0.shown_by(v) == Some(t),
{
    let n = s.put_view(v, view);
    assert forall|w: i32| #[trigger] n.views.contains_key(w) implies (n.views[w].toplevel matches Some(
        u,
    ) ==> n.toplevels.contains_key(u) && n.toplevels[u].view == Some(w)) by {
        if w != v {
            assert(s.views.contains_key(w));
        }
    }
    assert forall|u: i64| #[trigger] n.toplevels.contains_key(u) implies (
    n.toplevels[u].view matches Some(w) ==> n.views.contains_key(w) && n.views[w].toplevel == Some(
        u,
    )) by {
        assert(s.toplevels.contains_key(u));
    }
    assert(n.may_bind(v, t));
    crate::state::an_oldest_exists(n, v, t);
    let u = n.oldest_for(v)->0;
    assert(n.is_oldest(v, u));
    assert(s.toplevels.contains_key(u));
}

/// Unbinding a view leaves the other views, what every toplevel is called, and
/// what the view names.
pub proof fn unbinding_frees_one(s: StateModel, v: i32)
    requires
        s.bindings_wf(),
        s.views.contains_key(v),
    ensures
        ({
            let n = s.unbinding(v).0;
            &&& n.tokens == s.tokens
            &&& n.toplevels.dom() == s.toplevels.dom()
            &&& n.views.dom() == s.views.dom()
            &&& n.views[v].token == s.views[v].token
            &&& forall|w: i32| #![trigger n.views[w]] w != v ==> n.views[w] == s.views[w]
            &&& forall|u: i64|
                #![trigger n.toplevels[u]]
                n.toplevels[u] == (ToplevelModel { view: n.toplevels[u].view, ..s.toplevels[u] })
        }),
{
    let n = s.unbinding(v).0;
    assert(n.views.dom() =~= s.views.dom());
    assert(n.toplevels.dom() =~= s.toplevels.dom());
}

/// Activating with a token the server did not hand out, a client's own,
/// changes no toplevel and no binding, and asks for nothing.
pub proof fn a_clients_own_token_binds_nothing(s: StateModel, token: Seq<char>, t: Option<i64>)
    requires
        !s.tokens.contains(token),
    ensures
        s.activating(token, t) == (s, Seq::<Action>::empty()),
{
}

/// Activating a toplevel with an issued token marks that toplevel with it and
/// no other, and uses up that token alone.
pub proof fn a_token_marks_one_toplevel(s: StateModel, token: Seq<char>, t: i64)
    requires
        s.bindings_wf(),
        s.tokens.contains(token),
        s.toplevels.contains_key(t),
    ensures
        ({
            let n = s.activating(token, Some(t)).0;
            &&& n.tokens == s.tokens.filter(crate::state::not_token(token))
            &&& n.toplevels.dom() == s.toplevels.dom()
            &&& n.toplevels[t].token == Some(token)
            &&& forall|u: i64|
                #![trigger n.toplevels[u]]
                u != t ==> n.toplevels[u].token == s.toplevels[u].token
        }),
{
    let used = StateModel { tokens: s.tokens.filter(crate::state::not_token(token)), ..s };
    let named = used.put_toplevel(t, ToplevelModel { token: Some(token), ..used.toplevels[t] });
    assert(used.bindings_wf());
    assert(named.toplevels.dom() =~= s.toplevels.dom());
    crate::state::toplevel_edits_keep_wf(used, t, named.toplevels[t]);
    each_binding(named, crate::maps::listed(named.views.dom()));
    if let Some(w) = named.toplevels[t].view {
        assert(named.views.contains_key(w));
        crate::state::unbinding_is_kept(named, w);
        unbinding_frees_one(named, w);
        let freed = named.unbinding(w).0;
        each_binding(freed, crate::maps::listed(freed.views.dom()));
    }
}

/// A token is good for one toplevel: once used it is spent, and activating
/// another toplevel with it changes nothing and asks for nothing.
pub proof fn a_token_is_used_once(s: StateModel, token: Seq<char>, t: i64, other: Option<i64>)
    requires
        s.bindings_wf(),
        s.tokens.contains(token),
    ensures
        ({
            let after = s.activating(token, Some(t)).0;
            &&& !after.tokens.contains(token)
            &&& after.activating(token, other) == (after, Seq::<Action>::empty())
        }),
{
    filtered_out(s.tokens, token);
    if s.toplevels.contains_key(t) {
        a_token_marks_one_toplevel(s, token, t);
    }
}

proof fn filtered_out(tokens: Seq<Seq<char>>, token: Seq<char>)
    ensures
        !tokens.filter(crate::state::not_token(token)).contains(token),
    decreases tokens.len(),
{
    let p = crate::state::not_token(token);
    if tokens.len() == 0 {
        assert(tokens.filter(p) =~= tokens) by {
            reveal(Seq::filter);
        }
    } else {
        let d = tokens.drop_last();
        filtered_out(d, token);
        assert(tokens == d.push(tokens.last()));
        d.lemma_filter_push(tokens.last(), p);
        let f = d.filter(p);
        assert forall|i: int| 0 <= i < tokens.filter(p).len() implies tokens.filter(p)[i]
            != token by {
            if i < f.len() {
                assert(f[i] != token) by {
                    assert(!f.contains(token));
                }
            }
        }
    }
}

/// Something that happens to the server.
pub enum Event {
    ToplevelAdded { surface: u64, client: Option<u64> },
    ToplevelNamed { t: i64, app_id: Seq<char>, title: Seq<char> },
    ToplevelCommitted(i64),
    ToplevelDestroyed(i64),
    TokenIssued(Seq<char>),
    Activated { token: Seq<char>, t: Option<i64> },
    Asked { cmd: Cmd, now: u64 },
    Numbered { v: i32, layers: Seq<Layer> },
    FrameTaken { v: i32, layers: Seq<Layer>, fences: Seq<Fence>, taken: Taken, now: u64 },
    FrameRefused { v: i32, layers: Seq<Layer>, taken: Taken, now: u64 },
    /// What a view holds changed: a fence signaled, or one is to be watched.
    Held { v: i32, holds: HoldsModel },
    BufferGone(BufferKey),
    /// What waits on the clock changed: a surface with a target, or a barrier
    /// that no view shows.
    Paced(PacingModel),
    Ticked { now: u64, timers: Seq<Timer> },
    ClockLost(Seq<u64>),
}

/// The state after an event.
pub open spec fn after(s: StateModel, e: Event) -> StateModel {
    match e {
        Event::ToplevelAdded { surface, client } => s.with_toplevel(surface, client),
        Event::ToplevelNamed { t, app_id, title } => s.naming(t, app_id, title),
        Event::ToplevelCommitted(t) => s.mapping(t).0,
        Event::ToplevelDestroyed(t) => s.destroying(t).0,
        Event::TokenIssued(token) => StateModel { tokens: s.tokens.push(token), ..s },
        Event::Activated { token, t } => s.activating(token, t).0,
        Event::Asked { cmd, now } => crate::commands::handling(s, cmd, now).0,
        Event::Numbered { v, layers } => StateModel {
            buffers: crate::submit::numbering(s.buffers, v, layers).0,
            ..s
        },
        Event::FrameTaken { v, layers, fences, taken, now } => s.accepting(
            v,
            layers,
            fences,
            taken,
            now,
        ).0,
        Event::FrameRefused { v, layers, taken, now } => s.refusing(v, layers, taken, now).0,
        Event::Held { v, holds } => if s.views.contains_key(v) {
            s.put_view(v, ViewModel { holds, ..s.views[v] })
        } else {
            s
        },
        Event::BufferGone(key) => s.retiring(key).0,
        Event::Paced(pacing) => s.paced(pacing),
        Event::Ticked { now, timers } => s.ticking(now, timers).0,
        Event::ClockLost(owners) => s.releasing_everything(owners).0,
    }
}

/// Whether an event can happen in a state: toplevels can still be numbered,
/// and frames are those of views.
pub open spec fn possible(s: StateModel, e: Event) -> bool {
    match e {
        Event::ToplevelAdded { .. } => s.last_toplevel < i64::MAX,
        Event::FrameTaken { v, .. } => s.views.contains_key(v),
        Event::FrameRefused { v, .. } => s.views.contains_key(v),
        _ => true,
    }
}

/// Whether `token` was handed out in the course of `events`.
pub open spec fn issued(events: Seq<Event>, token: Seq<char>) -> bool {
    events.contains(Event::TokenIssued(token))
}

/// The state of a new server after `events`.
pub open spec fn reached(events: Seq<Event>) -> StateModel
    decreases events.len(),
{
    if events.len() == 0 {
        crate::state::new_state()
    } else {
        after(reached(events.drop_last()), events.last())
    }
}

/// Whether `events` can happen, one after the other. No token is handed out
/// twice.
pub open spec fn happens(events: Seq<Event>) -> bool
    decreases events.len(),
{
    events.len() == 0 || {
        let before = events.drop_last();
        &&& happens(before)
        &&& possible(reached(before), events.last())
        &&& events.last() matches Event::TokenIssued(token) ==> !issued(before, token)
    }
}

/// How tokens, toplevels and views agree:
/// tokens to be used were handed out;
/// one that a toplevel carries was handed out, is used up, and is carried by
/// it alone;
/// a toplevel that is not mapped is shown by no view;
/// one that is shown by a view naming a token is the only one that may carry
/// it, and the token was handed out and is used up.
pub open spec fn launches_agree(s: StateModel, events: Seq<Event>) -> bool {
    &&& forall|k: Seq<char>| #[trigger] s.tokens.contains(k) ==> issued(events, k)
    &&& forall|u: i64| #[trigger]
        s.toplevels.contains_key(u) ==> (s.toplevels[u].token matches Some(k)
            ==> !s.tokens.contains(k) && issued(events, k))
    &&& forall|u: i64, w: i64| #[trigger]
        s.toplevels.contains_key(u) && #[trigger] s.toplevels.contains_key(w)
            && s.toplevels[u].token is Some && s.toplevels[u].token == s.toplevels[w].token ==> u
            == w
    &&& forall|u: i64| #[trigger]
        s.toplevels.contains_key(u) && !s.toplevels[u].mapped ==> s.toplevels[u].view is None
    &&& forall|v: i32| #[trigger]
        s.views.contains_key(v) && s.views[v].toplevel is Some ==> (s.views[v].token matches Some(
            k,
        ) ==> !s.tokens.contains(k) && issued(events, k))
    &&& forall|v: i32, w: i64| #[trigger]
        s.views.contains_key(v) && #[trigger] s.toplevels.contains_key(w)
            && s.views[v].toplevel is Some && s.views[v].token is Some && s.toplevels[w].token
            == s.views[v].token ==> s.views[v].toplevel == Some(w)
}

/// A state that differs in nothing that bindings and launches rest on is as
/// sound.
proof fn calm(s: StateModel, n: StateModel, events: Seq<Event>)
    requires
        s.bindings_wf(),
        launches_agree(s, events),
        n.toplevels == s.toplevels,
        n.last_toplevel == s.last_toplevel,
        n.tokens == s.tokens,
        n.views.dom() == s.views.dom(),
        forall|w: i32| #[trigger]
            s.views.contains_key(w) ==> n.views[w].toplevel == s.views[w].toplevel
                && n.views[w].token == s.views[w].token,
    ensures
        n.bindings_wf(),
        launches_agree(n, events),
{
    assert forall|w: i32| #[trigger] n.views.contains_key(w) implies s.views.contains_key(w) by {}
}

/// Binding a view keeps the launches in agreement.
proof fn binding_agrees(s: StateModel, v: i32, events: Seq<Event>)
    requires
        s.bindings_wf(),
        launches_agree(s, events),
    ensures
        s.try_bind(v).0.bindings_wf(),
        launches_agree(s.try_bind(v).0, events),
{
    let n = s.try_bind(v).0;
    one_binding(s, v);
    assert forall|w: i32| #[trigger] n.views.contains_key(w) implies s.views.contains_key(w) by {}
    assert forall|u: i64| #[trigger]
        n.toplevels.contains_key(u) implies s.toplevels.contains_key(u) && n.toplevels[u].token
        == s.toplevels[u].token && n.toplevels[u].mapped == s.toplevels[u].mapped by {}
    assert forall|w: i32| #[trigger]
        n.views.contains_key(w) && n.views[w].toplevel is Some implies (
    n.views[w].token matches Some(k) ==> !n.tokens.contains(k) && issued(events, k)) by {
        if n.views[w] != s.views[w] {
            assert(s.toplevels.contains_key(n.views[v].toplevel->0));
        }
    }
    assert forall|w: i32, x: i64| #[trigger]
        n.views.contains_key(w) && #[trigger] n.toplevels.contains_key(x)
            && n.views[w].toplevel is Some && n.views[w].token is Some && n.toplevels[x].token
            == n.views[w].token implies n.views[w].toplevel == Some(x) by {
        if n.views[w] != s.views[w] {
            assert(s.toplevels.contains_key(n.views[v].toplevel->0));
        }
    }
    assert forall|u: i64| #[trigger]
        n.toplevels.contains_key(u) && !n.toplevels[u].mapped implies n.toplevels[u].view is None by {
        assert(s.toplevels.contains_key(u));
    }
}

proof fn bindings_agree_each(s: StateModel, ids: Seq<i32>, events: Seq<Event>)
    requires
        s.bindings_wf(),
        launches_agree(s, events),
    ensures
        s.bind_each(ids).0.bindings_wf(),
        launches_agree(s.bind_each(ids).0, events),
    decreases ids.len(),
{
    if ids.len() > 0 {
        bindings_agree_each(s, ids.drop_last(), events);
        binding_agrees(s.bind_each(ids.drop_last()).0, ids.last(), events);
    }
}

/// Unbinding a view keeps the launches in agreement.
proof fn unbinding_agrees(s: StateModel, v: i32, events: Seq<Event>)
    requires
        s.bindings_wf(),
        launches_agree(s, events),
    ensures
        s.unbinding(v).0.bindings_wf(),
        launches_agree(s.unbinding(v).0, events),
{
    if s.views.contains_key(v) {
        let n = s.unbinding(v).0;
        crate::state::unbinding_is_kept(s, v);
        unbinding_frees_one(s, v);
        assert forall|w: i32| #[trigger] n.views.contains_key(w) implies s.views.contains_key(
            w,
        ) && n.views[w].token == s.views[w].token && (n.views[w].toplevel is None
            || n.views[w].toplevel == s.views[w].toplevel) by {}
        assert forall|u: i64| #[trigger] n.toplevels.contains_key(u) implies s.toplevels.contains_key(
            u,
        ) && n.toplevels[u].token == s.toplevels[u].token && n.toplevels[u].mapped
            == s.toplevels[u].mapped && (n.toplevels[u].view is None || n.toplevels[u].view
            == s.toplevels[u].view) by {}
    }
}

/// Changing what a toplevel is called, or mapping it, keeps the launches in
/// agreement.
proof fn renaming_agrees(s: StateModel, t: i64, toplevel: ToplevelModel, events: Seq<Event>)
    requires
        s.bindings_wf(),
        launches_agree(s, events),
        s.toplevels.contains_key(t),
        toplevel.view == s.toplevels[t].view,
        toplevel.token == s.toplevels[t].token,
        s.toplevels[t].mapped ==> toplevel.mapped,
    ensures
        s.put_toplevel(t, toplevel).bindings_wf(),
        launches_agree(s.put_toplevel(t, toplevel), events),
{
    let n = s.put_toplevel(t, toplevel);
    crate::state::toplevel_edits_keep_wf(s, t, toplevel);
    assert forall|u: i64| #[trigger] n.toplevels.contains_key(u) implies s.toplevels.contains_key(u)
        && n.toplevels[u].token == s.toplevels[u].token && n.toplevels[u].view
        == s.toplevels[u].view && (s.toplevels[u].mapped ==> n.toplevels[u].mapped) by {}
}

/// Activating a toplevel keeps the launches in agreement.
proof fn activating_agrees(s: StateModel, token: Seq<char>, t: Option<i64>, events: Seq<Event>)
    requires
        s.bindings_wf(),
        launches_agree(s, events),
    ensures
        s.activating(token, t).0.bindings_wf(),
        launches_agree(s.activating(token, t).0, events),
{
    if s.tokens.contains(token) && t is Some {
        let t = t->0;
        let p = crate::state::not_token(token);
        let used = StateModel { tokens: s.tokens.filter(p), ..s };
        filtered_out(s.tokens, token);
        assert forall|k: Seq<char>| #[trigger] used.tokens.contains(k) implies s.tokens.contains(
            k,
        ) by {
            s.tokens.lemma_filter_contains_rev(p, k);
        }
        assert(used.bindings_wf());
        assert(launches_agree(used, events));
        if used.toplevels.contains_key(t) {
            let named = used.put_toplevel(
                t,
                ToplevelModel { token: Some(token), ..used.toplevels[t] },
            );
            crate::state::toplevel_edits_keep_wf(used, t, named.toplevels[t]);
            assert forall|u: i64| #[trigger]
                named.toplevels.contains_key(u) implies s.toplevels.contains_key(u) && (u != t
                ==> named.toplevels[u] == s.toplevels[u] && s.toplevels[u].token != Some(token))
                && named.toplevels[u].mapped == s.toplevels[u].mapped && named.toplevels[u].view
                == s.toplevels[u].view by {}
            assert forall|v: i32, w: i64| #[trigger]
                named.views.contains_key(v) && #[trigger] named.toplevels.contains_key(w)
                    && named.views[v].toplevel is Some && named.views[v].token is Some
                    && named.toplevels[w].token
                    == named.views[v].token implies named.views[v].toplevel == Some(w) by {
                assert(s.views.contains_key(v) && s.toplevels.contains_key(w));
            }
            assert(launches_agree(named, events));
            bindings_agree_each(named, crate::maps::listed(named.views.dom()), events);
            if let Some(w) = named.toplevels[t].view {
                unbinding_agrees(named, w, events);
                let freed = named.unbinding(w).0;
                bindings_agree_each(freed, crate::maps::listed(freed.views.dom()), events);
            }
        }
    }
}

/// A new view that shows nothing keeps the launches in agreement.
proof fn creating_agrees(s: StateModel, v: i32, view: ViewModel, events: Seq<Event>)
    requires
        s.bindings_wf(),
        launches_agree(s, events),
        view.toplevel is None,
    ensures
        s.creating(v, view).0.bindings_wf(),
        launches_agree(s.creating(v, view).0, events),
{
    unbinding_agrees(s, v, events);
    let freed = s.unbinding(v).0;
    assert(!freed.views.contains_key(v) || freed.views[v].toplevel is None) by {
        if s.views.contains_key(v) {
            crate::state::unbinding_is_kept(s, v);
        }
    }
    let n = freed.put_view(v, view);
    assert forall|w: i32| #[trigger] n.views.contains_key(w) && w != v implies freed.views.contains_key(
        w,
    ) && n.views[w] == freed.views[w] by {}
    assert forall|u: i64| #[trigger] n.toplevels.contains_key(u) implies (
    n.toplevels[u].view matches Some(w) ==> n.views.contains_key(w) && n.views[w].toplevel == Some(
        u,
    )) by {
        assert(freed.toplevels.contains_key(u));
    }
    assert(n.bindings_wf());
    assert(launches_agree(n, events));
    binding_agrees(n, v, events);
}

/// A view that goes away keeps the launches in agreement.
proof fn disposing_agrees(s: StateModel, v: i32, events: Seq<Event>)
    requires
        s.bindings_wf(),
        launches_agree(s, events),
    ensures
        s.disposing(v).0.bindings_wf(),
        launches_agree(s.disposing(v).0, events),
{
    unbinding_agrees(s, v, events);
    let freed = s.unbinding(v).0;
    let n = s.disposing(v).0;
    if s.views.contains_key(v) {
        crate::state::unbinding_is_kept(s, v);
    }
    assert forall|w: i32| #[trigger] n.views.contains_key(w) implies freed.views.contains_key(w)
        && n.views[w] == freed.views[w] by {}
    assert forall|u: i64| #[trigger] n.toplevels.contains_key(u) implies (
    n.toplevels[u].view matches Some(w) ==> n.views.contains_key(w) && n.views[w].toplevel == Some(
        u,
    )) by {
        assert(freed.toplevels.contains_key(u));
    }
}

/// A toplevel that goes away keeps the launches in agreement.
proof fn destroying_agrees(s: StateModel, t: i64, events: Seq<Event>)
    requires
        s.bindings_wf(),
        launches_agree(s, events),
    ensures
        s.destroying(t).0.bindings_wf(),
        launches_agree(s.destroying(t).0, events),
{
    let freed = s.unbinding_toplevel(t).0;
    if s.toplevels.contains_key(t) && s.toplevels[t].view is Some {
        let v = s.toplevels[t].view->0;
        assert(s.views.contains_key(v) && s.views[v].toplevel == Some(t));
        unbinding_agrees(s, v, events);
        crate::state::unbinding_is_kept(s, v);
    }
    let n = s.destroying(t).0;
    assert forall|u: i64| #[trigger] n.toplevels.contains_key(u) implies freed.toplevels.contains_key(
        u,
    ) && n.toplevels[u] == freed.toplevels[u] by {}
    assert forall|w: i32| #[trigger] n.views.contains_key(w) implies (
    n.views[w].toplevel matches Some(u) ==> n.toplevels.contains_key(u) && n.toplevels[u].view
        == Some(w)) by {
        assert(freed.views.contains_key(w));
        if freed.views[w].toplevel == Some(t) {
            assert(freed.toplevels.contains_key(t));
        }
    }
}

/// A new toplevel keeps the launches in agreement.
proof fn adding_agrees(s: StateModel, surface: u64, client: Option<u64>, events: Seq<Event>)
    requires
        s.bindings_wf(),
        launches_agree(s, events),
        s.last_toplevel < i64::MAX,
    ensures
        s.with_toplevel(surface, client).bindings_wf(),
        launches_agree(s.with_toplevel(surface, client), events),
{
    let n = s.with_toplevel(surface, client);
    let t = (s.last_toplevel + 1) as i64;
    assert(!s.toplevels.contains_key(t));
    assert forall|u: i64| #[trigger] n.toplevels.contains_key(u) && u != t implies s.toplevels.contains_key(
        u,
    ) && n.toplevels[u] == s.toplevels[u] by {}
    assert forall|w: i32| #[trigger] n.views.contains_key(w) implies (
    n.views[w].toplevel matches Some(u) ==> n.toplevels.contains_key(u) && n.toplevels[u].view
        == Some(w)) by {
        assert(s.views.contains_key(w));
    }
}

/// What a request does keeps the launches in agreement.
proof fn requests_agree(s: StateModel, cmd: Cmd, now: u64, events: Seq<Event>)
    requires
        s.bindings_wf(),
        launches_agree(s, events),
    ensures
        crate::commands::handling(s, cmd, now).0.bindings_wf(),
        launches_agree(crate::commands::handling(s, cmd, now).0, events),
{
    let n = crate::commands::handling(s, cmd, now).0;
    match cmd {
        Cmd::ViewCreated { view_id, params, size } => {
            creating_agrees(s, view_id, crate::state::fresh_view(params, size), events);
        },
        Cmd::ViewDisposed(view_id) => {
            disposing_agrees(s, view_id, events);
        },
        _ => {
            assert(n.views.dom() =~= s.views.dom());
            calm(s, n, events);
        },
    }
}

/// What an event does keeps the launches in agreement.
proof fn events_agree(s: StateModel, e: Event, events: Seq<Event>)
    requires
        s.bindings_wf(),
        launches_agree(s, events),
        possible(s, e),
        !(e is TokenIssued),
    ensures
        after(s, e).bindings_wf(),
        launches_agree(after(s, e), events),
{
    let n = after(s, e);
    match e {
        Event::ToplevelAdded { surface, client } => {
            adding_agrees(s, surface, client, events);
        },
        Event::ToplevelNamed { t, app_id, title } => {
            if s.toplevels.contains_key(t) {
                renaming_agrees(s, t, n.toplevels[t], events);
            }
        },
        Event::ToplevelCommitted(t) => {
            if s.toplevels.contains_key(t) && !s.toplevels[t].mapped {
                let m = ToplevelModel { mapped: true, ..s.toplevels[t] };
                renaming_agrees(s, t, m, events);
                let mapped = s.put_toplevel(t, m);
                bindings_agree_each(mapped, crate::maps::listed(mapped.views.dom()), events);
            }
        },
        Event::ToplevelDestroyed(t) => {
            destroying_agrees(s, t, events);
        },
        Event::Activated { token, t } => {
            activating_agrees(s, token, t, events);
        },
        Event::Asked { cmd, now } => {
            requests_agree(s, cmd, now, events);
        },
        _ => {
            assert(n.views.dom() =~= s.views.dom());
            calm(s, n, events);
        },
    }
}

/// In every state a server reaches, bindings are mutual and the launches agree.
pub proof fn every_state_agrees(events: Seq<Event>)
    requires
        happens(events),
    ensures
        reached(events).bindings_wf(),
        launches_agree(reached(events), events),
    decreases events.len(),
{
    if events.len() > 0 {
        let before = events.drop_last();
        let e = events.last();
        every_state_agrees(before);
        let s = reached(before);
        let n = reached(events);
        assert forall|k: Seq<char>| issued(before, k) implies #[trigger] issued(events, k) by {
            let i = choose|i: int| 0 <= i < before.len() && before[i] == Event::TokenIssued(k);
            assert(events[i] == before[i]);
        }
        assert(launches_agree(s, events));
        if let Event::TokenIssued(token) = e {
            assert(events[events.len() - 1] == e);
            assert(issued(events, token));
            assert forall|k: Seq<char>| #[trigger] n.tokens.contains(k) implies s.tokens.contains(k)
                || k == token by {
                let i = choose|i: int| 0 <= i < n.tokens.len() && n.tokens[i] == k;
                if i < s.tokens.len() {
                    assert(s.tokens[i] == k);
                }
            }
        } else {
            events_agree(s, e, events);
        }
    }
}

/// In every state a server reaches, activating a toplevel with a token the
/// server did not hand out changes nothing. One it handed out, and that was not
/// used yet, marks this toplevel and no other, and is used up: activating any
/// toplevel with it later changes nothing. A view that names it ends up with
/// the toplevel, taken from a view that bound it by app_id if need be: at once
/// where the toplevel is mapped, and otherwise when it is mapped, whatever else
/// happened until then.
pub proof fn a_launched_toplevel_goes_to_its_view(
    events: Seq<Event>,
    token: Seq<char>,
    t: i64,
    other: Option<i64>,
    v: i32,
)
    requires
        happens(events),
        reached(events).toplevels.contains_key(t),
    ensures
        ({
            let s = reached(events);
            let n = s.activating(token, Some(t)).0;
            let named = s.views.contains_key(v) && s.views[v].token == Some(token);
            &&& !s.tokens.contains(token) ==> s.activating(token, Some(t)) == (
                s,
                Seq::<Action>::empty(),
            )
            &&& s.tokens.contains(token) ==> {
                &&& n.toplevels[t].token == Some(token)
                &&& n.toplevels.dom() == s.toplevels.dom()
                &&& forall|u: i64|
                    #![trigger n.toplevels[u]]
                    u != t ==> n.toplevels[u].token == s.toplevels[u].token
                &&& !n.tokens.contains(token)
                &&& n.activating(token, other) == (n, Seq::<Action>::empty())
                &&& named && s.toplevels[t].mapped ==> shown_for(n, t, token)
            }
            &&& named && s.toplevels[t].token == Some(token) && !s.toplevels[t].mapped ==> shown_for(
                s.mapping(t).0,
                t,
                token,
            )
        }),
{
    let s = reached(events);
    every_state_agrees(events);
    let named = s.views.contains_key(v) && s.views[v].token == Some(token);
    if s.tokens.contains(token) {
        a_token_marks_one_toplevel(s, token, t);
        a_token_is_used_once(s, token, t, other);
        if named && s.toplevels[t].mapped {
            assert(waits_for(s, v, token));
            a_token_view_gets_its_toplevel(s, v, t, token);
        }
    }
    if named && s.toplevels[t].token == Some(token) && !s.toplevels[t].mapped {
        assert(waits_for(s, v, token));
        assert(carries_alone(s, t, token));
        mapping_gives_a_token_view_its_toplevel(s, v, t, token);
    }
}

} // verus!
