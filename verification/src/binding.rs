//! What views and toplevels go through: created, bound, sized, shown and let go.

use vstd::prelude::*;

use crate::action::Action;
use crate::buffers::BufferKey;
use crate::params::{Ratio, ViewParams};
use crate::state::{StateModel, ToplevelModel, ViewModel};
use crate::timing::FrameModel;

verus! {

/// A view that comes to show a toplevel tells its client the scale, then sizes
/// the toplevel to the view where its size is known, then shows what is there;
/// and the keyboard is pointed anew.
pub proof fn a_bound_view_is_scaled_sized_and_shown(s: StateModel, v: i32)
    requires
        s.bindings_wf(),
        s.views.contains_key(v),
        s.views[v].toplevel is None,
        s.try_bind(v).0.views[v].toplevel is Some,
    ensures
        ({
            let acts = s.try_bind(v).1;
            let t = s.try_bind(v).0.views[v].toplevel->0;
            &&& crate::action::in_order(
                acts,
                Action::Bound { view_id: v, toplevel_id: t },
                Action::ScaleTree(v),
            )
            &&& crate::action::in_order(acts, Action::ScaleTree(v), Action::Submit(v))
            &&& s.views[v].size is Some ==> crate::action::in_order(
                acts,
                Action::ScaleTree(v),
                Action::Configure(v),
            ) && crate::action::in_order(acts, Action::Configure(v), Action::Submit(v))
            &&& s.views[v].size is None ==> !acts.contains(Action::Configure(v))
            &&& acts.contains(Action::KeyboardFocus(s.try_bind(v).0.keyboard_target()))
        }),
{
    let acts = s.try_bind(v).1;
    let t = s.oldest_for(v)->0;
    assert(s.is_oldest(v, t));
    assert(acts[0] == Action::Bound { view_id: v, toplevel_id: t });
    assert(acts[1] == Action::ScaleTree(v));
    if s.views[v].size is Some {
        assert(acts[2] == Action::Configure(v));
        assert(acts[4] == Action::Submit(v));
        assert(acts[3] == Action::KeyboardFocus(s.try_bind(v).0.keyboard_target()));
    } else {
        assert(acts[3] == Action::Submit(v));
        assert(acts[2] == Action::KeyboardFocus(s.try_bind(v).0.keyboard_target()));
    }
}

/// Of the views bound in turn too: each that comes to show a toplevel is
/// scaled, sized and shown, in that order.
pub proof fn each_bound_view_is_scaled_sized_and_shown(s: StateModel, ids: Seq<i32>, v: i32)
    requires
        s.bindings_wf(),
        s.views.contains_key(v),
        s.views[v].toplevel is None,
        s.bind_each(ids).0.views[v].toplevel is Some,
    ensures
        crate::action::in_order(s.bind_each(ids).1, Action::ScaleTree(v), Action::Submit(v)),
        s.views[v].size is Some ==> crate::action::in_order(
            s.bind_each(ids).1,
            Action::ScaleTree(v),
            Action::Configure(v),
        ) && crate::action::in_order(s.bind_each(ids).1, Action::Configure(v), Action::Submit(v)),
    decreases ids.len(),
{
    if ids.len() > 0 {
        let d = ids.drop_last();
        let last = ids.last();
        let b = s.bind_each(d);
        let step = b.0.try_bind(last);
        crate::launch::each_binding(s, d);
        crate::launch::one_binding(b.0, last);
        sizes_are_kept(s, d, v);
        let none = Seq::<Action>::empty();
        let (scale, size, show) = (
            Action::ScaleTree(v),
            Action::Configure(v),
            Action::Submit(v),
        );
        if b.0.views[v].toplevel is Some {
            each_bound_view_is_scaled_sized_and_shown(s, d, v);
            assert(none + b.1 + step.1 == b.1 + step.1);
            crate::action::order_is_kept(none, b.1, step.1, scale, show);
            if s.views[v].size is Some {
                crate::action::order_is_kept(none, b.1, step.1, scale, size);
                crate::action::order_is_kept(none, b.1, step.1, size, show);
            }
        } else {
            assert(step.0.views[v] != b.0.views[v]);
            a_bound_view_is_scaled_sized_and_shown(b.0, v);
            assert(b.1 + step.1 + none == b.1 + step.1);
            crate::action::order_is_kept(b.1, step.1, none, scale, show);
            if s.views[v].size is Some {
                crate::action::order_is_kept(b.1, step.1, none, scale, size);
                crate::action::order_is_kept(b.1, step.1, none, size, show);
            }
        }
    }
}

/// Binding views leaves all that a view has but what it shows.
proof fn sizes_are_kept(s: StateModel, ids: Seq<i32>, v: i32)
    ensures
        s.bind_each(ids).0.views[v] == (ViewModel {
            toplevel: s.bind_each(ids).0.views[v].toplevel,
            ..s.views[v]
        }),
    decreases ids.len(),
{
    if ids.len() > 0 {
        sizes_are_kept(s, ids.drop_last(), v);
    }
}

/// A toplevel that is mapped, or activated, is scaled, sized and shown by the
/// view that takes it.
pub proof fn a_view_that_takes_a_toplevel_sizes_it(
    s: StateModel,
    v: i32,
    t: i64,
    token: Seq<char>,
)
    requires
        s.bindings_wf(),
        s.views.contains_key(v),
        s.views[v].toplevel is None,
        s.views[v].size is Some,
    ensures
        s.mapping(t).0.views[v].toplevel is Some ==> crate::action::in_order(
            s.mapping(t).1,
            Action::ScaleTree(v),
            Action::Configure(v),
        ) && crate::action::in_order(s.mapping(t).1, Action::Configure(v), Action::Submit(v)),
        s.activating(token, Some(t)).0.views[v].toplevel is Some ==> crate::action::in_order(
            s.activating(token, Some(t)).1,
            Action::ScaleTree(v),
            Action::Configure(v),
        ) && crate::action::in_order(
            s.activating(token, Some(t)).1,
            Action::Configure(v),
            Action::Submit(v),
        ),
{
    if s.toplevels.contains_key(t) && !s.toplevels[t].mapped {
        let m = ToplevelModel { mapped: true, ..s.toplevels[t] };
        crate::state::toplevel_edits_keep_wf(s, t, m);
        let n = s.put_toplevel(t, m);
        if s.mapping(t).0.views[v].toplevel is Some {
            each_bound_view_is_scaled_sized_and_shown(
                n,
                crate::maps::listed(n.views.dom()),
                v,
            );
        }
    }
    if s.activating(token, Some(t)).0.views[v].toplevel is Some {
        let used = StateModel {
            tokens: s.tokens.filter(crate::state::not_token(token)),
            ..s
        };
        let named = used.put_toplevel(
            t,
            ToplevelModel { token: Some(token), ..used.toplevels[t] },
        );
        assert(used.bindings_wf());
        crate::state::toplevel_edits_keep_wf(used, t, named.toplevels[t]);
        match named.toplevels[t].view {
            Some(w) => {
                assert(named.views.contains_key(w) && named.views[w].toplevel == Some(t));
                crate::state::unbinding_is_kept(named, w);
                crate::launch::unbinding_frees_one(named, w);
                let freed = named.unbinding(w);
                let ids = crate::maps::listed(freed.0.views.dom());
                assert(freed.0.views[v] == s.views[v]);
                each_bound_view_is_scaled_sized_and_shown(freed.0, ids, v);
                let none = Seq::<Action>::empty();
                let acts = freed.0.bind_waiting().1;
                assert(freed.1 + acts + none == freed.1 + acts);
                crate::action::order_is_kept(
                    freed.1,
                    acts,
                    none,
                    Action::ScaleTree(v),
                    Action::Configure(v),
                );
                crate::action::order_is_kept(
                    freed.1,
                    acts,
                    none,
                    Action::Configure(v),
                    Action::Submit(v),
                );
            },
            None => {
                each_bound_view_is_scaled_sized_and_shown(
                    named,
                    crate::maps::listed(named.views.dom()),
                    v,
                );
            },
        }
    }
}

/// Where a mapped toplevel that no view shows has the token a waiting view
/// names, or, for a view that names none, has none and has the app_id it names
/// if it names one, the view comes to show such a toplevel, none of them older.
pub proof fn a_fitting_toplevel_is_shown(s: StateModel, v: i32, t: i64)
    requires
        s.bindings_wf(),
        s.views.contains_key(v),
        s.views[v].toplevel is None,
        s.toplevels.contains_key(t),
        s.toplevels[t].mapped,
        s.toplevels[t].view is None,
        s.views[v].token is Some ==> s.toplevels[t].token == s.views[v].token,
        s.views[v].token is None ==> s.toplevels[t].token is None,
        s.views[v].token is None && s.views[v].app_id is Some ==> s.views[v].app_id == Some(
            s.toplevels[t].app_id,
        ),
    ensures
        s.try_bind(v).0.views[v].toplevel matches Some(u) && u <= t,
        forall|u: i64| #[trigger]
            s.try_bind(v).0.toplevels[u] != s.toplevels[u] ==> s.try_bind(v).0.views[v].toplevel
                == Some(u),
{
    assert(s.may_bind(v, t));
    crate::state::an_oldest_exists(s, v, t);
    let u = s.oldest_for(v)->0;
    assert(s.is_oldest(v, u));
    assert(s.try_bind(v).0.views[v].toplevel == Some(u));
}

/// A view comes to show only a mapped toplevel that no view showed, with the
/// token it names, or, where it names none, with none and with the app_id it
/// names if it names one. The toplevel is then shown by it, and nothing else
/// of either changes.
pub proof fn only_a_fitting_toplevel_is_shown(s: StateModel, v: i32)
    requires
        s.bindings_wf(),
        s.views.contains_key(v),
        s.views[v].toplevel is None,
        s.try_bind(v).0.views[v].toplevel is Some,
    ensures
        ({
            let n = s.try_bind(v).0;
            let t = n.views[v].toplevel->0;
            let top = s.toplevels[t];
            &&& s.toplevels.contains_key(t)
            &&& top.mapped
            &&& top.view is None
            &&& top.token == s.views[v].token
            &&& s.views[v].token is None && s.views[v].app_id is Some ==> s.views[v].app_id == Some(
                top.app_id,
            )
            &&& n.toplevels[t].view == Some(v)
            &&& n.views[v] == (ViewModel { toplevel: Some(t), ..s.views[v] })
            &&& n.toplevels[t] == (ToplevelModel { view: Some(v), ..top })
            &&& n.focused_view == s.focused_view
            &&& n.tokens == s.tokens
            &&& n.buffers == s.buffers
            &&& n.pacing == s.pacing
        }),
{
    let u = s.oldest_for(v)->0;
    assert(s.is_oldest(v, u));
}

/// After waiting views were bound, none is left waiting for a toplevel that
/// fits it.
pub proof fn no_view_is_left_waiting(s: StateModel, v: i32, t: i64)
    requires
        s.bindings_wf(),
        s.views.contains_key(v),
        ({
            let n = s.bind_waiting().0;
            let top = n.toplevels[t];
            &&& n.views[v].toplevel is None
            &&& n.toplevels.contains_key(t)
            &&& top.mapped
            &&& n.views[v].token == top.token
            &&& n.views[v].token is None && n.views[v].app_id is Some ==> n.views[v].app_id == Some(
                top.app_id,
            )
        }),
    ensures
        s.bind_waiting().0.toplevels[t].view is Some,
{
    crate::maps::every_set_can_be_listed(s.views.dom());
    let ids = crate::maps::listed(s.views.dom());
    assert(s.views.dom().contains(v));
    assert(ids.contains(v));
    taken_before(s, ids, v, t);
}

proof fn taken_before(s: StateModel, ids: Seq<i32>, v: i32, t: i64)
    requires
        s.bindings_wf(),
        s.views.contains_key(v),
        ids.contains(v),
        ({
            let n = s.bind_each(ids).0;
            let top = n.toplevels[t];
            &&& n.views[v].toplevel is None
            &&& n.toplevels.contains_key(t)
            &&& top.mapped
            &&& n.views[v].token == top.token
            &&& n.views[v].token is None && n.views[v].app_id is Some ==> n.views[v].app_id == Some(
                top.app_id,
            )
        }),
    ensures
        s.bind_each(ids).0.toplevels[t].view is Some,
    decreases ids.len(),
{
    let d = ids.drop_last();
    let last = ids.last();
    let b = s.bind_each(d).0;
    let n = s.bind_each(ids).0;
    crate::launch::each_binding(s, d);
    crate::launch::each_binding(s, ids);
    crate::launch::one_binding(b, last);
    sizes_are_kept(s, d, v);
    sizes_are_kept(s, ids, v);
    assert(n == b.try_bind(last).0);
    if b.toplevels[t].view is None {
        assert(n.toplevels[t].token == b.toplevels[t].token);
        if last == v {
            if b.views[v].toplevel is None {
                a_fitting_toplevel_is_shown(b, v, t);
            }
        } else {
            let i = choose|i: int| 0 <= i < ids.len() && ids[i] == v;
            assert(d[i] == v);
            assert(n.views[v] == b.views[v]);
            taken_before(s, d, v, t);
        }
    }
}

/// A view is created as the widget asked: it names what the widget names, has
/// the size and the ratio that were given, 1 where none was, has submitted
/// nothing, and is in the scene. The display's scale is told first.
pub proof fn a_view_is_created_as_asked(
    s: StateModel,
    v: i32,
    params: ViewParams,
    size: Option<(i32, i32)>,
)
    ensures
        ({
            let step = s.creating(v, crate::state::fresh_view(params, size));
            let view = step.0.views[v];
            &&& step.0.views.contains_key(v)
            &&& params.dpr is Some ==> view.dpr == params.dpr->0
            &&& params.dpr is None ==> view.dpr == Ratio::Whole(1)
            &&& view.size == size
            &&& params.token is Some ==> view.token == Some(params.token->0@)
            &&& params.token is None ==> view.token is None
            &&& params.app_id is Some ==> view.app_id == Some(params.app_id->0@)
            &&& params.app_id is None ==> view.app_id is None
            &&& view.seq == 0
            &&& !view.suspended
            &&& !view.cleared
            &&& view.frames.len() == 0
            &&& view.holds.fenced.len() == 0
            &&& view.holds.unfenced.len() == 0
            &&& view.answer is None
            &&& step.1.len() > 0
            &&& step.1[0] == Action::OutputScale(v)
            &&& step.0.focused_view == s.focused_view
        }),
{
    let n = s.unbinding(v).0.put_view(v, crate::state::fresh_view(params, size));
    assert(n.try_bind(v).0.views[v] == (ViewModel {
        toplevel: n.try_bind(v).0.views[v].toplevel,
        ..n.views[v]
    }));
}

/// An unbound view shows nothing: it and its toplevel are free, nothing of it
/// is in flight or held, and where it showed anything the shell is handed an
/// empty frame with the next number. What the view is stays as it was, and so
/// do the others.
pub proof fn an_unbound_view_is_empty(s: StateModel, v: i32)
    requires
        s.bindings_wf(),
        s.views.contains_key(v),
        s.views[v].seq < u64::MAX,
    ensures
        ({
            let was = s.views[v];
            let n = s.unbinding(v).0;
            let acts = s.unbinding(v).1;
            let view = n.views[v];
            &&& view.toplevel is None
            &&& view.frames.len() == 0
            &&& view.holds.fenced.len() == 0
            &&& view.holds.unfenced.len() == 0
            &&& view.answer is None
            &&& view.token == was.token
            &&& view.app_id == was.app_id
            &&& view.size == was.size
            &&& view.dpr == was.dpr
            &&& view.suspended == was.suspended
            &&& was.seq > 0 ==> view.cleared
            &&& was.seq > 0 && !was.cleared ==> view.seq == was.seq + 1 && acts.contains(
                Action::SubmitEmpty { view_id: v, seq: (was.seq + 1) as u64 },
            )
            &&& (was.seq == 0 || was.cleared) ==> view.seq == was.seq
            &&& was.toplevel is Some ==> n.toplevels[was.toplevel->0].view is None
            &&& acts.contains(Action::ForgetScanout(v))
            &&& acts.last() == Action::KeyboardFocus(n.keyboard_target())
            &&& n.focused_view == s.focused_view
            &&& n.tokens == s.tokens
            &&& forall|w: i32| w != v ==> #[trigger] n.views[w] == s.views[w]
            &&& forall|u: i64|
                was.toplevel != Some(u) ==> #[trigger] n.toplevels[u] == s.toplevels[u]
        }),
{
    crate::state::unbinding_is_kept(s, v);
    let was = s.views[v];
    let acts = s.unbinding(v).1;
    let a = s.dropping_frames(v);
    let b = a.0.clearing(v);
    assert(acts[acts.len() - 2] == Action::ForgetScanout(v));
    if was.seq > 0 && !was.cleared {
        let empty = Action::SubmitEmpty { view_id: v, seq: (was.seq + 1) as u64 };
        assert(b.1[0] == empty);
        assert(acts[a.1.len() as int] == empty);
    }
}

/// A view that is disposed of is gone, with all it held; the keyboard focus
/// goes with it, and no buffer is kept for it.
pub proof fn a_disposed_view_is_gone(s: StateModel, v: i32)
    requires
        s.bindings_wf(),
    ensures
        ({
            let n = s.disposing(v).0;
            &&& !n.views.contains_key(v)
            &&& n.focused_view != Some(v)
            &&& s.focused_view != Some(v) ==> n.focused_view == s.focused_view
            &&& forall|w: i32| w != v ==> #[trigger] n.views[w] == s.views[w]
            &&& forall|w: i32|
                w != v ==> (#[trigger] n.views.contains_key(w) <==> s.views.contains_key(w))
            &&& n.tokens == s.tokens
            &&& forall|u: i64| #[trigger]
                n.toplevels.contains_key(u) ==> n.toplevels[u].view != Some(v)
        }),
{
    let n = s.disposing(v).0;
    if s.views.contains_key(v) {
        crate::state::unbinding_is_kept(s, v);
        let freed = s.unbinding(v).0;
        assert forall|u: i64| #[trigger] n.toplevels.contains_key(u) implies n.toplevels[u].view
            != Some(v) by {
            assert(freed.toplevels.contains_key(u));
        }
    } else {
        assert forall|u: i64| #[trigger] n.toplevels.contains_key(u) implies n.toplevels[u].view
            != Some(v) by {
            assert(s.toplevels.contains_key(u));
        }
    }
}

/// A view that is laid out has that size, and its toplevel, if it shows one, is
/// sized to it. Nothing else changes.
pub proof fn a_resized_view_sizes_its_toplevel(s: StateModel, v: i32, w: i32, h: i32)
    requires
        s.bindings_wf(),
    ensures
        ({
            let n = s.resizing(v, w, h).0;
            let acts = s.resizing(v, w, h).1;
            &&& s.views.contains_key(v) ==> n.views[v] == (ViewModel {
                size: Some((w, h)),
                ..s.views[v]
            })
            &&& forall|x: i32| x != v ==> #[trigger] n.views[x] == s.views[x]
            &&& n.views.dom() == s.views.dom()
            &&& n == (StateModel { views: n.views, ..s })
            &&& s.views.contains_key(v) && s.views[v].toplevel is Some ==> acts == seq![
                Action::Configure(v),
            ]
            &&& !(s.views.contains_key(v) && s.views[v].toplevel is Some) ==> acts.len() == 0
        }),
{
    let n = s.resizing(v, w, h).0;
    assert(n.views.dom() =~= s.views.dom());
}

/// The keyboard points at the toplevel that the focused view shows, and at
/// nothing where no view has the focus, or it shows nothing or is out of the
/// scene.
pub proof fn the_keyboard_follows_the_focused_view(s: StateModel, v: i32)
    requires
        s.bindings_wf(),
    ensures
        s.focused_view is None ==> s.keyboard_target() is None,
        s.focused_view == Some(v) && s.views.contains_key(v) && !s.views[v].suspended
            ==> s.keyboard_target() == s.views[v].toplevel,
        s.focused_view == Some(v) && (!s.views.contains_key(v) || s.views[v].suspended)
            ==> s.keyboard_target() is None,
{
}

/// A toplevel is added under a number of its own, not mapped and shown by no
/// view, with the surface and client it was made for; naming it changes what it
/// is called, and mapping it marks it mapped. None of that touches another.
pub proof fn a_toplevel_is_added_named_and_mapped(
    s: StateModel,
    surface: u64,
    client: Option<u64>,
    t: i64,
    app_id: Seq<char>,
    title: Seq<char>,
)
    requires
        s.bindings_wf(),
        s.last_toplevel < i64::MAX,
    ensures
        ({
            let n = s.with_toplevel(surface, client);
            let id = (s.last_toplevel + 1) as i64;
            let new = n.toplevels[id];
            &&& !s.toplevels.contains_key(id)
            &&& n.toplevels.contains_key(id)
            &&& n.last_toplevel == id
            &&& new.surface == surface
            &&& new.client == client
            &&& new.app_id.len() == 0
            &&& new.title.len() == 0
            &&& new.token is None
            &&& !new.mapped
            &&& new.view is None
            &&& n.views == s.views
            &&& forall|u: i64| u != id ==> #[trigger] n.toplevels[u] == s.toplevels[u]
        }),
        ({
            let n = s.naming(t, app_id, title);
            &&& s.toplevels.contains_key(t) ==> n.toplevels[t].app_id == app_id
                && n.toplevels[t].title == title && n.toplevels[t].token == s.toplevels[t].token
                && n.toplevels[t].view == s.toplevels[t].view && n.toplevels[t].mapped
                == s.toplevels[t].mapped
            &&& !s.toplevels.contains_key(t) ==> n == s
            &&& n.views == s.views
            &&& forall|u: i64| u != t ==> #[trigger] n.toplevels[u] == s.toplevels[u]
        }),
        s.toplevels.contains_key(t) ==> s.mapping(t).0.toplevels[t].mapped
            && s.mapping(t).0.toplevels[t].app_id == s.toplevels[t].app_id,
        s.toplevels.contains_key(t) && s.toplevels[t].mapped ==> s.mapping(t) == (
            s,
            Seq::<Action>::empty(),
        ),
{
    if s.toplevels.contains_key(t) && !s.toplevels[t].mapped {
        let m = ToplevelModel { mapped: true, ..s.toplevels[t] };
        crate::state::toplevel_edits_keep_wf(s, t, m);
        let n = s.put_toplevel(t, m);
        crate::launch::each_binding(n, crate::maps::listed(n.views.dom()));
    }
}

/// A toplevel that is destroyed is gone, and no view shows it.
pub proof fn a_destroyed_toplevel_is_gone(s: StateModel, t: i64)
    requires
        s.bindings_wf(),
    ensures
        ({
            let n = s.destroying(t).0;
            &&& !n.toplevels.contains_key(t)
            &&& forall|w: i32| #[trigger]
                n.views.contains_key(w) ==> n.views[w].toplevel != Some(t)
            &&& forall|u: i64| u != t && s.toplevels.contains_key(u) ==> #[trigger] n.toplevels[u]
                == s.toplevels[u]
            &&& forall|w: i32|
                s.shown_by(w) != Some(t) ==> #[trigger] n.views[w] == s.views[w]
            &&& n.tokens == s.tokens
        }),
{
    let n = s.destroying(t).0;
    if s.toplevels.contains_key(t) && s.toplevels[t].view is Some {
        let v = s.toplevels[t].view->0;
        assert(s.views.contains_key(v) && s.views[v].toplevel == Some(t));
        crate::state::unbinding_is_kept(s, v);
        let freed = s.unbinding(v).0;
        assert forall|w: i32| #[trigger] n.views.contains_key(w) implies n.views[w].toplevel
            != Some(t) by {
            assert(freed.views.contains_key(w));
        }
    } else {
        assert forall|w: i32| #[trigger] n.views.contains_key(w) implies n.views[w].toplevel
            != Some(t) by {
            assert(s.views.contains_key(w));
        }
    }
}

/// A view that was disposed of is to be told of no buffer any more; other views
/// still are, and every buffer keeps its id.
pub proof fn a_disposed_view_imports_nothing(s: StateModel, v: i32, w: i32, key: BufferKey)
    requires
        s.buffers.by_buffer.contains_key(key),
        w != v,
    ensures
        s.disposing(v).0.buffers.by_buffer.contains_key(key),
        s.disposing(v).0.buffers.by_buffer[key].id == s.buffers.by_buffer[key].id,
        !s.disposing(v).0.buffers.by_buffer[key].views.contains(v),
        s.disposing(v).0.buffers.by_buffer[key].views.contains(w)
            <==> s.buffers.by_buffer[key].views.contains(w),
{
    crate::buffers::a_buffer_is_noted_where_it_was_shown(s.buffers, key, key, v, w);
}

/// A view that shows nothing more has its client carry on exactly where one of
/// its frames held that up; every feedback is discarded and every barrier
/// clears.
pub proof fn a_view_that_drops_its_frames_settles_them(s: StateModel, v: i32, c: u64, i: int, j: int)
    requires
        s.views.contains_key(v),
    ensures
        ({
            let frames = s.views[v].frames;
            let acts = s.dropping_frames(v).1;
            &&& s.dropping_frames(v).0.views[v].frames.len() == 0
            &&& acts.contains(Action::Unblock(c)) <==> s.client_of(v) == Some(c) && exists|k: int|
                0 <= k < frames.len() && (#[trigger] frames[k]).barriers.len() > 0
            &&& 0 <= i < frames.len() && 0 <= j < frames[i].feedback.len() ==> acts.contains(
                Action::Discarded(frames[i].feedback[j].callback),
            )
            &&& 0 <= i < frames.len() && 0 <= j < frames[i].barriers.len() ==> acts.contains(
                Action::Cleared(frames[i].barriers[j]),
            )
        }),
{
    let frames = s.views[v].frames;
    let acts = s.dropping_frames(v).1;
    let first = crate::timing::all_unshown(frames);
    let last = acts.skip(first.len() as int);
    assert(acts =~= first + last);
    let piece = |f: FrameModel| f.unshown();
    let b = Action::Unblock(c);
    crate::maps::listed_by_either(first, last, b);
    crate::maps::listed_by_a_piece(frames, piece, b);
    if first.contains(b) {
        let k = choose|k: int| 0 <= k < frames.len() && piece(#[trigger] frames[k]).contains(b);
        let p = piece(frames[k]);
        let m = choose|m: int| 0 <= m < p.len() && p[m] == b;
        assert(p[m] is Discarded || p[m] is Cleared);
    }
    if crate::timing::any_barrier(frames) && s.client_of(v) == Some(c) {
        assert(last[0] == b);
    }
    if 0 <= i < frames.len() {
        let d = crate::timing::discards(frames[i].feedback);
        let e = crate::timing::clears(frames[i].barriers);
        if 0 <= j < d.len() {
            let x = Action::Discarded(frames[i].feedback[j].callback);
            assert(d[j] == x);
            crate::maps::listed_by_either(d, e, x);
            assert(piece(frames[i]).contains(x));
            crate::maps::listed_by_a_piece(frames, piece, x);
            crate::maps::listed_by_either(first, last, x);
        }
        if 0 <= j < e.len() {
            let x = Action::Cleared(frames[i].barriers[j]);
            assert(e[j] == x);
            crate::maps::listed_by_either(d, e, x);
            assert(piece(frames[i]).contains(x));
            crate::maps::listed_by_a_piece(frames, piece, x);
            crate::maps::listed_by_either(first, last, x);
        }
    }
}

/// A toplevel that a view shows stays there when it is activated with a token
/// that no view names, or that its own view does: only a view that names the
/// token has the better claim.
pub proof fn a_token_nobody_names_moves_nothing(s: StateModel, token: Seq<char>, t: i64, v: i32)
    requires
        s.tokens.contains(token),
        s.toplevels.contains_key(t),
        s.toplevels[t].view == Some(v),
        s.views[v].token == Some(token) || forall|w: i32| #[trigger]
            s.views.contains_key(w) ==> s.views[w].token != Some(token),
    ensures
        s.activating(token, Some(t)).1.len() == 0,
        s.activating(token, Some(t)).0.views == s.views,
        s.activating(token, Some(t)).0.toplevels[t].view == Some(v),
        s.activating(token, Some(t)).0.toplevels[t].token == Some(token),
{
}

/// What a view shows, and whose it is, are those of the toplevel it is bound
/// to, as long as that is there.
pub proof fn whose_toplevel_a_view_shows(s: StateModel, v: i32)
    ensures
        s.views.contains_key(v) ==> s.shown_by(v) == s.views[v].toplevel,
        !s.views.contains_key(v) ==> s.shown_by(v) is None && s.client_of(v) is None,
        s.views.contains_key(v) && s.views[v].toplevel is None ==> s.client_of(v) is None,
        s.views.contains_key(v) && s.views[v].toplevel is Some && s.toplevels.contains_key(
            s.views[v].toplevel->0,
        ) ==> s.client_of(v) == s.toplevels[s.views[v].toplevel->0].client,
{
}

/// Of views waiting for a toplevel, the one with the least id gets it.
pub proof fn the_first_view_waiting_is_served(s: StateModel, v: i32, t: i64)
    requires
        s.bindings_wf(),
        s.views.contains_key(v),
        s.views[v].toplevel is None,
        s.may_bind(v, t),
        forall|w: i32, u: i64|
            s.views.contains_key(w) && s.views[w].toplevel is None && #[trigger] s.may_bind(w, u)
                ==> u == t && v <= w,
    ensures
        s.bind_waiting().0.views[v].toplevel == Some(t),
{
    let ids = crate::maps::listed(s.views.dom());
    crate::maps::every_set_can_be_listed(s.views.dom());
    crate::maps::ascending(ids);
    assert(s.views.dom().contains(v));
    assert(ids.contains(v));
    let k = choose|k: int| 0 <= k < ids.len() && ids[k] == v;
    assert forall|i: int| 0 <= i < k implies (#[trigger] ids[i]) < v by {
        assert(ids[i] < ids[k]);
    }
    assert forall|i: int| 0 <= i < ids.len() implies s.views.contains_key(#[trigger] ids[i]) by {
        assert(ids.contains(ids[i]));
    }
    nothing_is_bound_before(s, ids.take(k), v);
    a_fitting_toplevel_is_shown(s, v, t);
    let first = ids.take(k + 1);
    assert(first.drop_last() =~= ids.take(k));
    assert(first.last() == v);
    assert(s.bind_each(first).0 == s.try_bind(v).0);
    let u = s.oldest_for(v)->0;
    assert(s.is_oldest(v, u));
    assert(s.bind_each(first).0.views[v].toplevel == Some(t));
    crate::launch::each_binding(s, first);
    what_is_shown_stays(s, ids, k + 1, v, t);
}

proof fn nothing_is_bound_before(s: StateModel, ids: Seq<i32>, v: i32)
    requires
        forall|w: i32, u: i64|
            s.views.contains_key(w) && s.views[w].toplevel is None && #[trigger] s.may_bind(w, u)
                ==> v <= w,
        forall|i: int| 0 <= i < ids.len() ==> (#[trigger] ids[i]) < v && s.views.contains_key(ids[i]),
    ensures
        s.bind_each(ids) == (s, Seq::<Action>::empty()),
    decreases ids.len(),
{
    if ids.len() > 0 {
        let d = ids.drop_last();
        let w = ids.last();
        assert forall|i: int| 0 <= i < d.len() implies (#[trigger] d[i]) < v
            && s.views.contains_key(d[i]) by {
            assert(d[i] == ids[i]);
        }
        nothing_is_bound_before(s, d, v);
        assert(ids[ids.len() - 1] < v);
        if s.views[w].toplevel is None && s.oldest_for(w) is Some {
            let u = s.oldest_for(w)->0;
            assert(s.is_oldest(w, u));
            assert(s.may_bind(w, u));
        }
        assert(s.bind_each(d).1 + Seq::<Action>::empty() =~= Seq::<Action>::empty());
    }
}

proof fn what_is_shown_stays(s: StateModel, ids: Seq<i32>, k: int, v: i32, t: i64)
    requires
        s.bindings_wf(),
        0 <= k <= ids.len(),
        s.bind_each(ids.take(k)).0.views[v].toplevel == Some(t),
    ensures
        s.bind_each(ids).0.views[v].toplevel == Some(t),
    decreases ids.len() - k,
{
    if k < ids.len() {
        let next = ids.take(k + 1);
        assert(next.drop_last() =~= ids.take(k));
        crate::launch::each_binding(s, ids.take(k));
        let b = s.bind_each(ids.take(k)).0;
        crate::launch::one_binding(b, next.last());
        assert(s.bind_each(next).0 == b.try_bind(next.last()).0);
        let n = b.try_bind(next.last()).0;
        assert(n.views[v].toplevel == b.views[v].toplevel);
        what_is_shown_stays(s, ids, k + 1, v, t);
    } else {
        assert(ids.take(k) =~= ids);
    }
}

/// The shell is handed an empty frame before any buffer that a view held goes
/// back to its client: what it still shows is not written to.
pub proof fn a_view_is_emptied_before_its_buffers_go_back(s: StateModel, v: i32, i: int, j: int)
    requires
        s.views.contains_key(v),
        0 <= i < s.unbinding(v).1.len(),
        0 <= j < s.unbinding(v).1.len(),
        s.unbinding(v).1[i] is SubmitEmpty,
        s.unbinding(v).1[j] is ReleaseBuffer || s.unbinding(v).1[j] is ReleaseSlot,
    ensures
        i < j,
{
    let acts = s.unbinding(v).1;
    let a = s.dropping_frames(v);
    let b = a.0.clearing(v);
    let view = b.0.views[v];
    let c = crate::holds::unwatched(v, view.holds.fenced);
    let d = crate::holds::drops(view.holds.unfenced);
    let n = a.1.len() as int;
    let m = n + b.1.len();
    no_frame_work_is_a_drop(s, v);
    assert(acts.take(n) =~= a.1);
    assert forall|k: int| 0 <= k < n implies !(#[trigger] acts[k] is SubmitEmpty) && !(
    acts[k] is ReleaseBuffer) && !(acts[k] is ReleaseSlot) by {
        assert(acts[k] == a.1[k]);
    }
    assert forall|k: int| n <= k < m implies #[trigger] acts[k] is SubmitEmpty by {
        assert(acts[k] == b.1[k - n]);
    }
    holds_are_not_frames(v, view.holds.fenced);
    assert forall|k: int| m <= k < acts.len() implies !(#[trigger] acts[k] is SubmitEmpty) by {
        if k < m + c.len() {
            assert(acts[k] == c[k - m]);
        } else if k < m + c.len() + d.len() {
            assert(acts[k] == d[k - m - c.len()]);
            assert(d[k - m - c.len()] == crate::holds::dropped(
                view.holds.unfenced[k - m - c.len()].1,
            ));
        }
    }
}

proof fn no_frame_work_is_a_drop(s: StateModel, v: i32)
    requires
        s.views.contains_key(v),
    ensures
        forall|k: int|
            0 <= k < s.dropping_frames(v).1.len() ==> ((#[trigger] s.dropping_frames(v).1[k]) is Discarded
                || s.dropping_frames(v).1[k] is Cleared || s.dropping_frames(v).1[k] is Unblock),
{
    let acts = s.dropping_frames(v).1;
    let frames = s.views[v].frames;
    let first = crate::timing::all_unshown(frames);
    assert forall|k: int| 0 <= k < acts.len() implies ((#[trigger] acts[k]) is Discarded
        || acts[k] is Cleared || acts[k] is Unblock) by {
        if k < first.len() {
            assert(acts[k] == first[k]);
            let piece = |f: FrameModel| f.unshown();
            let x = first[k];
            assert(first.contains(x));
            crate::maps::listed_by_a_piece(frames, piece, x);
            let i = choose|i: int|
                0 <= i < frames.len() && piece(#[trigger] frames[i]).contains(x);
            let p = piece(frames[i]);
            let m = choose|m: int| 0 <= m < p.len() && p[m] == x;
            assert(p[m] is Discarded || p[m] is Cleared);
        }
    }
}

proof fn holds_are_not_frames(v: i32, fenced: Seq<(u64, BufferKey)>)
    ensures
        forall|k: int|
            0 <= k < crate::holds::unwatched(v, fenced).len() ==> !(
            (#[trigger] crate::holds::unwatched(v, fenced)[k]) is SubmitEmpty),
{
    let f = |h: (u64, BufferKey)|
        seq![Action::DropFence { view_id: v, key: h.0 }, crate::holds::dropped(h.1)];
    let all = crate::holds::unwatched(v, fenced);
    assert(all == fenced.flat_map(f));
    assert forall|k: int| 0 <= k < all.len() implies !((#[trigger] all[k]) is SubmitEmpty) by {
        let x = all[k];
        assert(all.contains(x));
        crate::maps::listed_by_a_piece(fenced, f, x);
        let i = choose|i: int| 0 <= i < fenced.len() && f(#[trigger] fenced[i]).contains(x);
        let p = f(fenced[i]);
        let m = choose|m: int| 0 <= m < p.len() && p[m] == x;
        assert(p[m] is DropFence || p[m] is ReleaseBuffer || p[m] is ReleaseSlot);
    }
}

} // verus!
