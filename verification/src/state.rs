//! Views, toplevels, and which view shows which toplevel.
//!
//! A view binds to a toplevel by activation token or app_id, and to one at
//! most; a toplevel is shown by one view at most.

use std::collections::BTreeMap;
use vstd::prelude::*;

use crate::action::Action;
use crate::buffers::{BufferIds, IdsModel};
use crate::holds::{Holds, HoldsModel};
use crate::pacing::{Pacing, PacingModel};
use crate::params::{Ratio, ViewParams};
use crate::timing::{FrameModel, Frames};

verus! {

broadcast use vstd::laws_cmp::group_laws_cmp;

/// A live platform view and what it shows.
#[derive(Debug)]
pub struct ViewEntry {
    /// What the widget asked for: what to bind to.
    pub params: ViewParams,
    /// The toplevel it shows, once bound.
    pub toplevel: Option<i64>,
    /// Its laid-out size in physical pixels, once known.
    pub size: Option<(i32, i32)>,
    /// Physical pixels per logical one.
    pub dpr: Ratio,
    /// The number of its last frame.
    pub seq: u64,
    /// Buffers the shell may still be using.
    pub holds: Holds,
    /// Its last frame showed nothing.
    pub cleared: bool,
    /// Submitted frames awaiting the shell's report.
    pub frames: Frames,
    /// Out of the scene: nothing it shows is reported.
    pub suspended: bool,
    /// When its surfaces' frame callbacks are answered if no report comes.
    pub answer: Option<u64>,
}

/// A toplevel the server knows. It is mapped at its initial commit, once the
/// client has had the chance to set app_id and title, which is what views bind
/// by.
#[derive(Debug)]
pub struct ToplevelEntry {
    pub surface: u64,
    /// The client it belongs to, while that is connected.
    pub client: Option<u64>,
    pub app_id: String,
    pub title: String,
    /// The activation token it was launched with.
    pub token: Option<String>,
    pub mapped: bool,
    /// The view showing it, once bound.
    pub view: Option<i32>,
}

/// A view, as plain values.
#[verifier::ext_equal]
pub struct ViewModel {
    pub token: Option<Seq<char>>,
    pub app_id: Option<Seq<char>>,
    pub toplevel: Option<i64>,
    pub size: Option<(i32, i32)>,
    pub dpr: Ratio,
    pub seq: u64,
    pub holds: HoldsModel,
    pub cleared: bool,
    pub frames: Seq<FrameModel>,
    pub suspended: bool,
    pub answer: Option<u64>,
}

/// A toplevel, as plain values.
#[verifier::ext_equal]
pub struct ToplevelModel {
    pub surface: u64,
    pub client: Option<u64>,
    pub app_id: Seq<char>,
    pub title: Seq<char>,
    pub token: Option<Seq<char>>,
    pub mapped: bool,
    pub view: Option<i32>,
}

/// An optional text, as characters.
pub open spec fn chars(s: Option<String>) -> Option<Seq<char>> {
    match s {
        Some(s) => Some(s@),
        None => None,
    }
}

impl View for ViewEntry {
    type V = ViewModel;

    open spec fn view(&self) -> ViewModel {
        ViewModel {
            token: chars(self.params.token),
            app_id: chars(self.params.app_id),
            toplevel: self.toplevel,
            size: self.size,
            dpr: self.dpr,
            seq: self.seq,
            holds: self.holds@,
            cleared: self.cleared,
            frames: self.frames@,
            suspended: self.suspended,
            answer: self.answer,
        }
    }
}

impl View for ToplevelEntry {
    type V = ToplevelModel;

    open spec fn view(&self) -> ToplevelModel {
        ToplevelModel {
            surface: self.surface,
            client: self.client,
            app_id: self.app_id@,
            title: self.title@,
            token: chars(self.token),
            mapped: self.mapped,
            view: self.view,
        }
    }
}

/// All of the server's state but what the protocol objects hold.
#[derive(Debug)]
pub struct State {
    /// Live platform views, by platform-view id.
    pub views: BTreeMap<i32, ViewEntry>,
    /// Toplevels, by the id they were given.
    pub toplevels: BTreeMap<i64, ToplevelEntry>,
    pub last_toplevel: i64,
    /// Activation tokens handed out and not used yet.
    pub tokens: Vec<String>,
    pub buffers: BufferIds,
    pub pacing: Pacing,
    /// The view last given keyboard focus.
    pub focused_view: Option<i32>,
}

/// The state, as plain values.
#[verifier::ext_equal]
pub struct StateModel {
    pub views: Map<i32, ViewModel>,
    pub toplevels: Map<i64, ToplevelModel>,
    pub last_toplevel: i64,
    pub tokens: Seq<Seq<char>>,
    pub buffers: IdsModel,
    pub pacing: PacingModel,
    pub focused_view: Option<i32>,
}

impl View for State {
    type V = StateModel;

    open spec fn view(&self) -> StateModel {
        StateModel {
            views: self.views@.map_values(|v: ViewEntry| v@),
            toplevels: self.toplevels@.map_values(|t: ToplevelEntry| t@),
            last_toplevel: self.last_toplevel,
            tokens: self.tokens@.map_values(|t: String| t@),
            buffers: self.buffers@,
            pacing: self.pacing@,
            focused_view: self.focused_view,
        }
    }
}

impl ViewModel {
    /// Its holds and frames are within their bounds.
    pub open spec fn wf(self) -> bool {
        self.holds.wf() && self.frames.len() <= crate::timing::MAX_IN_FLIGHT
    }

    /// Whether the view may bind `t`: the toplevel activated with the token
    /// the view names; or, for a view that names none, one with the app_id it
    /// names, or any. Views that name no token pass over toplevels launched
    /// with one.
    pub open spec fn wants(self, t: ToplevelModel) -> bool {
        &&& t.mapped
        &&& t.view is None
        &&& match self.token {
            Some(token) => t.token == Some(token),
            None => t.token is None && (self.app_id matches Some(a) ==> t.app_id == a),
        }
    }
}

/// What an operation makes of the state, and what it asks for.
pub type Step = (StateModel, Seq<Action>);

impl StateModel {
    /// A view shows a toplevel exactly when the toplevel is shown by it; ids
    /// are those handed out; every part is within its bounds.
    pub open spec fn wf(self) -> bool {
        &&& self.bindings_wf()
        &&& forall|v: i32| #[trigger] self.views.contains_key(v) ==> self.views[v].wf()
        &&& self.pacing.wf()
    }

    /// A view shows a toplevel exactly when the toplevel is shown by it, and
    /// ids are those handed out.
    pub open spec fn bindings_wf(self) -> bool {
        &&& self.bindings_agree()
        &&& forall|t: i64| #[trigger]
            self.toplevels.contains_key(t) ==> 1 <= t <= self.last_toplevel
        &&& 0 <= self.last_toplevel
        &&& self.views.dom().finite()
    }

    /// No view has used up its frame numbers.
    pub open spec fn numbers_left(self) -> bool {
        forall|v: i32| #[trigger] self.views.contains_key(v) ==> self.views[v].seq < u64::MAX
    }

    /// Bindings are mutual.
    pub open spec fn bindings_agree(self) -> bool {
        &&& forall|v: i32| #[trigger]
            self.views.contains_key(v) ==> (self.views[v].toplevel matches Some(t)
                ==> self.toplevels.contains_key(t) && self.toplevels[t].view == Some(v))
        &&& forall|t: i64| #[trigger]
            self.toplevels.contains_key(t) ==> (self.toplevels[t].view matches Some(v)
                ==> self.views.contains_key(v) && self.views[v].toplevel == Some(t))
    }

    /// The state with another view in place of `v`.
    pub open spec fn put_view(self, v: i32, view: ViewModel) -> StateModel {
        StateModel { views: self.views.insert(v, view), ..self }
    }

    /// The state with another toplevel in place of `t`.
    pub open spec fn put_toplevel(self, t: i64, toplevel: ToplevelModel) -> StateModel {
        StateModel { toplevels: self.toplevels.insert(t, toplevel), ..self }
    }

    /// The toplevel that view `v` shows.
    pub open spec fn shown_by(self, v: i32) -> Option<i64> {
        if self.views.contains_key(v) {
            self.views[v].toplevel
        } else {
            None
        }
    }

    /// The client of the toplevel that view `v` shows.
    pub open spec fn client_of(self, v: i32) -> Option<u64> {
        match self.shown_by(v) {
            Some(t) => if self.toplevels.contains_key(t) {
                self.toplevels[t].client
            } else {
                None
            },
            None => None,
        }
    }

    /// What the keyboard is to point at: what the focused view shows, unless
    /// it is out of the scene.
    pub open spec fn keyboard_target(self) -> Option<i64> {
        match self.focused_view {
            Some(v) => if self.views.contains_key(v) && !self.views[v].suspended {
                match self.views[v].toplevel {
                    Some(t) => if self.toplevels.contains_key(t) {
                        Some(t)
                    } else {
                        None
                    },
                    None => None,
                }
            } else {
                None
            },
            None => None,
        }
    }

    /// Whether view `v` may bind toplevel `t`.
    pub open spec fn may_bind(self, v: i32, t: i64) -> bool {
        self.toplevels.contains_key(t) && self.views[v].wants(self.toplevels[t])
    }

    /// Whether `t` is the oldest toplevel that view `v` may bind.
    pub open spec fn is_oldest(self, v: i32, t: i64) -> bool {
        self.may_bind(v, t) && forall|u: i64| #[trigger] self.may_bind(v, u) ==> t <= u
    }

    /// The oldest toplevel that view `v` may bind.
    pub open spec fn oldest_for(self, v: i32) -> Option<i64> {
        if exists|t: i64| self.is_oldest(v, t) {
            Some(choose|t: i64| self.is_oldest(v, t))
        } else {
            None
        }
    }

    /// The state once view `v` shows toplevel `t`.
    pub open spec fn bound(self, v: i32, t: i64) -> StateModel {
        self.put_view(v, ViewModel { toplevel: Some(t), ..self.views[v] }).put_toplevel(
            t,
            ToplevelModel { view: Some(v), ..self.toplevels[t] },
        )
    }

    /// The sizing of the view's toplevel: once both are known.
    pub open spec fn configuring(self, v: i32) -> Seq<Action> {
        if self.views.contains_key(v) && self.views[v].size is Some && self.shown_by(v) is Some
            && self.toplevels.contains_key(self.shown_by(v)->0) {
            seq![Action::Configure(v)]
        } else {
            Seq::empty()
        }
    }

    /// Bind view `v` to the oldest toplevel it may show, if it shows none. The
    /// scale is told before the first configure, so the client sizes its first
    /// buffer for it; and what the toplevel already has is shown, since a
    /// static client may never commit again.
    pub open spec fn try_bind(self, v: i32) -> Step {
        if self.views.contains_key(v) && self.views[v].toplevel is None {
            match self.oldest_for(v) {
                Some(t) => {
                    let next = self.bound(v, t);
                    (
                        next,
                        seq![
                            Action::Bound { view_id: v, toplevel_id: t },
                            Action::ScaleTree(v),
                        ] + next.configuring(v) + seq![
                            Action::KeyboardFocus(next.keyboard_target()),
                            Action::Submit(v),
                        ],
                    )
                },
                None => (self, Seq::empty()),
            }
        } else {
            (self, Seq::empty())
        }
    }

    /// Bind each of `ids` in turn.
    pub open spec fn bind_each(self, ids: Seq<i32>) -> Step
        decreases ids.len(),
    {
        if ids.len() == 0 {
            (self, Seq::empty())
        } else {
            let before = self.bind_each(ids.drop_last());
            let last = before.0.try_bind(ids.last());
            (last.0, before.1 + last.1)
        }
    }

    /// A toplevel mapped: views waiting for one may bind it, oldest first.
    pub open spec fn bind_waiting(self) -> Step {
        self.bind_each(crate::maps::listed(self.views.dom()))
    }

    /// View `v` shows nothing more: what its frames held is settled, and its
    /// client, if it was held up, carries on.
    pub open spec fn dropping_frames(self, v: i32) -> Step {
        if self.views.contains_key(v) {
            let view = self.views[v];
            (
                self.put_view(v, ViewModel { frames: Seq::empty(), ..view }),
                crate::timing::all_unshown(view.frames) + if crate::timing::any_barrier(
                    view.frames,
                ) && self.client_of(v) is Some {
                    seq![Action::Unblock(self.client_of(v)->0)]
                } else {
                    Seq::empty()
                },
            )
        } else {
            (self, Seq::empty())
        }
    }

    /// View `v` is to show nothing, if it shows anything.
    pub open spec fn clearing(self, v: i32) -> Step {
        if self.views.contains_key(v) && self.views[v].seq > 0 && !self.views[v].cleared {
            let seq = (self.views[v].seq + 1) as u64;
            (
                self.put_view(v, ViewModel { seq, cleared: true, ..self.views[v] }),
                seq![Action::SubmitEmpty { view_id: v, seq }],
            )
        } else {
            (self, Seq::empty())
        }
    }

    /// Break view `v`'s binding, handing back every buffer it held.
    pub open spec fn unbinding(self, v: i32) -> Step {
        if self.views.contains_key(v) {
            let a = self.dropping_frames(v);
            let b = a.0.clearing(v);
            let view = b.0.views[v];
            let freed = b.0.put_view(
                v,
                ViewModel {
                    holds: view.holds.cleared(),
                    toplevel: None,
                    answer: None,
                    ..view
                },
            );
            let next = match view.toplevel {
                Some(t) => if freed.toplevels.contains_key(t) {
                    freed.put_toplevel(t, ToplevelModel { view: None, ..freed.toplevels[t] })
                } else {
                    freed
                },
                None => freed,
            };
            (
                next,
                a.1 + b.1 + crate::holds::unwatched(v, view.holds.fenced) + crate::holds::drops(
                    view.holds.unfenced,
                ) + seq![
                    Action::ForgetScanout(v),
                    Action::KeyboardFocus(next.keyboard_target()),
                ],
            )
        } else {
            (self, Seq::empty())
        }
    }

    /// Toplevel `t` is going away: its view shows nothing new until it binds
    /// another.
    pub open spec fn unbinding_toplevel(self, t: i64) -> Step {
        if self.toplevels.contains_key(t) && self.toplevels[t].view is Some {
            self.unbinding(self.toplevels[t].view->0)
        } else {
            (self, Seq::empty())
        }
    }

    /// The state with one more toplevel, not mapped yet.
    pub open spec fn with_toplevel(self, surface: u64, client: Option<u64>) -> StateModel {
        let t = (self.last_toplevel + 1) as i64;
        StateModel {
            last_toplevel: t,
            toplevels: self.toplevels.insert(
                t,
                ToplevelModel {
                    surface,
                    client,
                    app_id: Seq::empty(),
                    title: Seq::empty(),
                    token: None,
                    mapped: false,
                    view: None,
                },
            ),
            ..self
        }
    }

    /// The state once toplevel `t` is called by these names.
    pub open spec fn naming(self, t: i64, app_id: Seq<char>, title: Seq<char>) -> StateModel {
        if self.toplevels.contains_key(t) {
            self.put_toplevel(t, ToplevelModel { app_id, title, ..self.toplevels[t] })
        } else {
            self
        }
    }

    /// Toplevel `t` committed: the first time, it is mapped, and views waiting
    /// for one may bind it.
    pub open spec fn mapping(self, t: i64) -> Step {
        if self.toplevels.contains_key(t) && !self.toplevels[t].mapped {
            self.put_toplevel(
                t,
                ToplevelModel { mapped: true, ..self.toplevels[t] },
            ).bind_waiting()
        } else {
            (self, Seq::empty())
        }
    }

    /// Toplevel `t` was destroyed.
    pub open spec fn destroying(self, t: i64) -> Step {
        let freed = self.unbinding_toplevel(t);
        (StateModel { toplevels: freed.0.toplevels.remove(t), ..freed.0 }, freed.1)
    }

    /// Whether a view names `token`.
    pub open spec fn wanted(self, token: Seq<char>) -> bool {
        exists|v: i32| #[trigger]
            self.views.contains_key(v) && self.views[v].token == Some(token)
    }

    /// Toplevel `t` was activated with `token`. One the server handed out
    /// reserves the toplevel for the view naming it, and is used up by that;
    /// any other asks for focus, or is a client's own: there is nothing to
    /// bind. Where a view binding by app_id took the toplevel before the
    /// activation came, the view naming the token has the better claim.
    pub open spec fn activating(self, token: Seq<char>, t: Option<i64>) -> Step {
        if !self.tokens.contains(token) || t is None {
            (self, Seq::empty())
        } else {
            let used = StateModel { tokens: self.tokens.filter(not_token(token)), ..self };
            let t = t->0;
            if !used.toplevels.contains_key(t) {
                (used, Seq::empty())
            } else {
                let named = used.put_toplevel(
                    t,
                    ToplevelModel { token: Some(token), ..used.toplevels[t] },
                );
                match named.toplevels[t].view {
                    Some(v) => if named.views[v].token == Some(token) || !named.wanted(token) {
                        (named, Seq::empty())
                    } else {
                        let freed = named.unbinding(v);
                        let bound = freed.0.bind_waiting();
                        (bound.0, freed.1 + bound.1)
                    },
                    None => named.bind_waiting(),
                }
            }
        }
    }

    /// A view was created. A create under a live id disposes the incumbent
    /// first, so finding one here is an ordering race only.
    pub open spec fn creating(self, v: i32, view: ViewModel) -> Step {
        let freed = self.unbinding(v);
        let bound = freed.0.put_view(v, view).try_bind(v);
        (bound.0, seq![Action::OutputScale(v)] + freed.1 + bound.1)
    }

    /// A view was disposed of.
    pub open spec fn disposing(self, v: i32) -> Step {
        let freed = self.unbinding(v);
        (
            StateModel {
                views: freed.0.views.remove(v),
                buffers: freed.0.buffers.forgotten(v),
                focused_view: if freed.0.focused_view == Some(v) {
                    None
                } else {
                    freed.0.focused_view
                },
                ..freed.0
            },
            freed.1,
        )
    }

    /// A view was laid out at this size.
    pub open spec fn resizing(self, v: i32, width: i32, height: i32) -> Step {
        let next = if self.views.contains_key(v) {
            self.put_view(v, ViewModel { size: Some((width, height)), ..self.views[v] })
        } else {
            self
        };
        (next, next.configuring(v))
    }
}

/// Any token but `token`.
pub open spec fn not_token(token: Seq<char>) -> spec_fn(Seq<char>) -> bool {
    |t: Seq<char>| t != token
}

/// A view that shows nothing yet.
pub open spec fn fresh_view(params: ViewParams, size: Option<(i32, i32)>) -> ViewModel {
    ViewModel {
        token: chars(params.token),
        app_id: chars(params.app_id),
        toplevel: None,
        size,
        dpr: match params.dpr {
            Some(dpr) => dpr,
            None => Ratio::Whole(1),
        },
        seq: 0,
        holds: HoldsModel::empty(),
        cleared: false,
        frames: Seq::empty(),
        suspended: false,
        answer: None,
    }
}

fn same_text(a: &Option<String>, b: &Option<String>) -> (same: bool)
    ensures
        same == (chars(*a) == chars(*b)),
{
    match (a, b) {
        (Some(a), Some(b)) => *a == *b,
        (None, None) => true,
        _ => false,
    }
}

/// Whether a view with these parameters may bind `t`.
fn wants(view: &ViewEntry, t: &ToplevelEntry) -> (yes: bool)
    ensures
        yes == view@.wants(t@),
{
    if !t.mapped || t.view.is_some() {
        return false;
    }
    if view.params.token.is_some() {
        return same_text(&t.token, &view.params.token);
    }
    if t.token.is_some() {
        return false;
    }
    match &view.params.app_id {
        Some(app_id) => t.app_id == *app_id,
        None => true,
    }
}

/// The state of a server that knows no client yet.
pub open spec fn new_state() -> StateModel {
    StateModel {
        views: Map::empty(),
        toplevels: Map::empty(),
        last_toplevel: 0,
        tokens: Seq::empty(),
        buffers: IdsModel { last: 0, by_buffer: Map::empty() },
        pacing: PacingModel {
            clock: crate::timing::FrameClock {
                ust_ns: 0,
                refresh_ns: crate::timing::DEFAULT_REFRESH_NS,
            },
            timed: Seq::empty(),
            loose: Seq::empty(),
            tick: None,
        },
        focused_view: None,
    }
}

impl State {
    /// A server that knows no client yet.
    pub fn new() -> (state: State)
        ensures
            state@.wf(),
            state@ == new_state(),
    {
        let state = State {
            views: BTreeMap::new(),
            toplevels: BTreeMap::new(),
            last_toplevel: 0,
            tokens: Vec::new(),
            buffers: BufferIds::new(),
            pacing: Pacing::new(),
            focused_view: None,
        };
        assert(state@.views =~= Map::<i32, ViewModel>::empty());
        assert(state@.toplevels =~= Map::<i64, ToplevelModel>::empty());
        assert(state@.tokens =~= Seq::<Seq<char>>::empty());
        assert(state@ =~= new_state());
        state
    }

    /// The oldest toplevel that view `view_id` may bind.
    fn find_oldest(&self, view_id: i32) -> (found: Option<i64>)
        requires
            self@.views.contains_key(view_id),
        ensures
            found == self@.oldest_for(view_id),
    {
        let keys = crate::maps::keys_of(&self.toplevels);
        proof {
            crate::maps::ascending_i64(keys@);
        }
        let view = match self.views.get(&view_id) {
            Some(view) => view,
            None => {
                return None;
            },
        };
        let mut i: usize = 0;
        while i < keys.len()
            invariant
                i <= keys.len(),
                self.views@.contains_key(view_id),
                *view == self.views@[view_id],
                crate::maps::lists(keys@, self.toplevels@.dom()),
                forall|a: int, b: int| 0 <= a < b < keys@.len() ==> keys@[a] < keys@[b],
                forall|j: int| 0 <= j < i ==> !self@.may_bind(view_id, #[trigger] keys@[j]),
            decreases keys.len() - i,
        {
            let id: i64 = keys[i];
            proof {
                assert(keys@.contains(id));
                assert(self.toplevels@.dom().contains(id));
            }
            if let Some(t) = self.toplevels.get(&id) {
                if wants(view, t) {
                    proof {
                        assert(self@.may_bind(view_id, id));
                        assert forall|u: i64| #[trigger] self@.may_bind(view_id, u) implies id
                            <= u by {
                            assert(self.toplevels@.dom().contains(u));
                            assert(keys@.contains(u));
                            let j = choose|j: int| 0 <= j < keys@.len() && keys@[j] == u;
                            if j < i {
                                assert(!self@.may_bind(view_id, keys@[j]));
                            }
                        }
                        assert(self@.is_oldest(view_id, id));
                        let c = choose|t: i64| self@.is_oldest(view_id, t);
                        assert(self@.may_bind(view_id, c));
                        assert(c == id);
                    }
                    return Some(id);
                }
            }
            i += 1;
        }
        proof {
            assert forall|t: i64| !self@.is_oldest(view_id, t) by {
                if self@.may_bind(view_id, t) {
                    assert(self.toplevels@.dom().contains(t));
                    assert(keys@.contains(t));
                    let j = choose|j: int| 0 <= j < keys@.len() && keys@[j] == t;
                    assert(!self@.may_bind(view_id, keys@[j]));
                }
            }
        }
        None
    }

    /// What the keyboard is to point at.
    pub fn keyboard_target(&self) -> (target: Option<i64>)
        ensures
            target == self@.keyboard_target(),
    {
        let v: i32 = match self.focused_view {
            Some(v) => v,
            None => {
                return None;
            },
        };
        match self.views.get(&v) {
            Some(view) => {
                if view.suspended {
                    return None;
                }
                match view.toplevel {
                    Some(t) => {
                        if self.toplevels.contains_key(&t) {
                            Some(t)
                        } else {
                            None
                        }
                    },
                    None => None,
                }
            },
            None => None,
        }
    }

    /// Size the view's toplevel to the view, where both are known.
    pub fn configure_view(&self, view_id: i32, out: &mut Vec<Action>)
        ensures
            final(out)@ == old(out)@ + self@.configuring(view_id),
    {
        if let Some(view) = self.views.get(&view_id) {
            if view.size.is_some() {
                if let Some(t) = view.toplevel {
                    if self.toplevels.contains_key(&t) {
                        out.push(Action::Configure(view_id));
                        assert(out@ == old(out)@ + seq![Action::Configure(view_id)]);
                        return;
                    }
                }
            }
        }
        assert(out@ == old(out)@ + Seq::<Action>::empty());
    }

    /// Bind `view_id` to a toplevel if it has none: the oldest it may show.
    pub fn try_bind_view(&mut self, view_id: i32, out: &mut Vec<Action>)
        requires
            old(self)@.wf(),
        ensures
            final(self)@ == old(self)@.try_bind(view_id).0,
            final(self)@.wf(),
            final(out)@ == old(out)@ + old(self)@.try_bind(view_id).1,
            old(self)@.views.contains_key(view_id) && old(self)@.views[view_id].toplevel is None
                && old(self)@.views[view_id].size is Some
                && final(self)@.views[view_id].toplevel is Some ==> crate::action::in_order(
                final(out)@,
                Action::ScaleTree(view_id),
                Action::Configure(view_id),
            ) && crate::action::in_order(
                final(out)@,
                Action::Configure(view_id),
                Action::Submit(view_id),
            ),
    {
        let ghost start = out@;
        proof {
            let s = self@;
            let acts = s.try_bind(view_id).1;
            let none = Seq::<Action>::empty();
            if s.views.contains_key(view_id) && s.views[view_id].toplevel is None
                && s.views[view_id].size is Some && s.try_bind(view_id).0.views[view_id].toplevel is Some {
                crate::binding::a_bound_view_is_scaled_sized_and_shown(s, view_id);
                assert(start + acts + none == start + acts);
                crate::action::order_is_kept(
                    start,
                    acts,
                    none,
                    Action::ScaleTree(view_id),
                    Action::Configure(view_id),
                );
                crate::action::order_is_kept(
                    start,
                    acts,
                    none,
                    Action::Configure(view_id),
                    Action::Submit(view_id),
                );
            }
        }
        let bound: bool = match self.views.get(&view_id) {
            Some(view) => view.toplevel.is_some(),
            None => true,
        };
        if bound {
            assert(out@ == start + Seq::<Action>::empty());
            return;
        }
        let t: i64 = match self.find_oldest(view_id) {
            Some(t) => t,
            None => {
                assert(out@ == start + Seq::<Action>::empty());
                return;
            },
        };
        proof {
            assert(self@.is_oldest(view_id, t));
            binding_is_kept(self@, view_id, t);
        }
        if let Some(mut view) = self.views.remove(&view_id) {
            view.toplevel = Some(t);
            self.views.insert(view_id, view);
        }
        if let Some(mut top) = self.toplevels.remove(&t) {
            top.view = Some(view_id);
            self.toplevels.insert(t, top);
        }
        proof {
            let next = old(self)@.bound(view_id, t);
            assert(self@.views =~= next.views);
            assert(self@.toplevels =~= next.toplevels);
            assert(self@ =~= next);
        }
        out.push(Action::Bound { view_id, toplevel_id: t });
        out.push(Action::ScaleTree(view_id));
        self.configure_view(view_id, out);
        out.push(Action::KeyboardFocus(self.keyboard_target()));
        out.push(Action::Submit(view_id));
        assert(out@ == start + old(self)@.try_bind(view_id).1);
    }

    /// A toplevel mapped: views waiting for one may bind it, oldest first.
    pub fn bind_waiting_views(&mut self, out: &mut Vec<Action>)
        requires
            old(self)@.wf(),
        ensures
            final(self)@ == old(self)@.bind_waiting().0,
            final(self)@.wf(),
            final(out)@ == old(out)@ + old(self)@.bind_waiting().1,
    {
        let keys = crate::maps::keys_of(&self.views);
        let ghost dom = self@.views.dom();
        proof {
            assert(dom =~= self.views@.dom());
            crate::maps::listing_is_unique(keys@, crate::maps::listed(dom), dom);
        }
        let mut i: usize = 0;
        assert(keys@.take(0) == Seq::<i32>::empty());
        assert(out@ == old(out)@ + Seq::<Action>::empty());
        while i < keys.len()
            invariant
                i <= keys.len(),
                self@.wf(),
                self@ == old(self)@.bind_each(keys@.take(i as int)).0,
                out@ == old(out)@ + old(self)@.bind_each(keys@.take(i as int)).1,
            decreases keys.len() - i,
        {
            proof {
                assert(keys@.take(i + 1).drop_last() == keys@.take(i as int));
                assert(keys@.take(i + 1).last() == keys@[i as int]);
            }
            self.try_bind_view(keys[i], out);
            i += 1;
        }
        assert(keys@.take(i as int) == keys@);
    }
}

impl State {
    /// The client of the toplevel that `view_id` shows.
    pub fn view_client(&self, view_id: i32) -> (client: Option<u64>)
        ensures
            client == self@.client_of(view_id),
    {
        match self.views.get(&view_id) {
            Some(view) => match view.toplevel {
                Some(t) => match self.toplevels.get(&t) {
                    Some(top) => top.client,
                    None => None,
                },
                None => None,
            },
            None => None,
        }
    }

    /// The view shows nothing more: settle what its frames held.
    pub fn drop_frames(&mut self, view_id: i32, out: &mut Vec<Action>)
        requires
            old(self)@.wf(),
        ensures
            final(self)@ == old(self)@.dropping_frames(view_id).0,
            final(self)@.wf(),
            final(out)@ == old(out)@ + old(self)@.dropping_frames(view_id).1,
    {
        let ghost start = out@;
        let client = self.view_client(view_id);
        let mut released: bool = false;
        match self.views.remove(&view_id) {
            Some(mut view) => {
                released = view.frames.clear(out);
                self.views.insert(view_id, view);
            },
            None => {
                assert(self@.views =~= old(self)@.views);
                assert(self@ =~= old(self)@);
                assert(out@ == start + Seq::<Action>::empty());
                return;
            },
        }
        if released {
            if let Some(client) = client {
                out.push(Action::Unblock(client));
            }
        }
        proof {
            let next = old(self)@.dropping_frames(view_id).0;
            assert(self@.views =~= next.views);
            assert(self@ =~= next);
            view_edits_keep_wf(
                old(self)@,
                view_id,
                ViewModel { frames: Seq::empty(), ..old(self)@.views[view_id] },
            );
            assert(out@ == start + old(self)@.dropping_frames(view_id).1);
        }
    }

    /// Have the shell show nothing for the view, if it shows anything.
    pub fn clear_view(&mut self, view_id: i32, out: &mut Vec<Action>)
        requires
            old(self)@.wf(),
            old(self)@.views.contains_key(view_id) ==> old(self)@.views[view_id].seq < u64::MAX,
        ensures
            final(self)@ == old(self)@.clearing(view_id).0,
            final(self)@.wf(),
            final(out)@ == old(out)@ + old(self)@.clearing(view_id).1,
    {
        let ghost start = out@;
        let shows: bool = match self.views.get(&view_id) {
            Some(view) => view.seq > 0 && !view.cleared,
            None => false,
        };
        if !shows {
            assert(out@ == start + Seq::<Action>::empty());
            return;
        }
        if let Some(mut view) = self.views.remove(&view_id) {
            view.seq = view.seq + 1;
            view.cleared = true;
            out.push(Action::SubmitEmpty { view_id, seq: view.seq });
            self.views.insert(view_id, view);
        }
        proof {
            let next = old(self)@.clearing(view_id).0;
            assert(self@.views =~= next.views);
            assert(self@ =~= next);
            view_edits_keep_wf(old(self)@, view_id, next.views[view_id]);
        }
    }

    /// Break the view's binding, handing back every buffer it held.
    pub fn unbind_view(&mut self, view_id: i32, out: &mut Vec<Action>)
        requires
            old(self)@.wf(),
            old(self)@.views.contains_key(view_id) ==> old(self)@.views[view_id].seq < u64::MAX,
        ensures
            final(self)@ == old(self)@.unbinding(view_id).0,
            final(self)@.wf(),
            final(out)@ == old(out)@ + old(self)@.unbinding(view_id).1,
    {
        let ghost start = out@;
        if !self.views.contains_key(&view_id) {
            assert(out@ == start + Seq::<Action>::empty());
            return;
        }
        proof {
            unbinding_is_kept(old(self)@, view_id);
        }
        self.drop_frames(view_id, out);
        // Else the shell keeps showing the toplevel's last frame.
        self.clear_view(view_id, out);
        let ghost two = self@;
        let mut shown: Option<i64> = None;
        if let Some(mut view) = self.views.remove(&view_id) {
            view.holds.clear(view_id, out);
            shown = view.toplevel;
            view.toplevel = None;
            view.answer = None;
            self.views.insert(view_id, view);
        }
        let ghost freed = two.put_view(
            view_id,
            ViewModel {
                holds: two.views[view_id].holds.cleared(),
                toplevel: None,
                answer: None,
                ..two.views[view_id]
            },
        );
        proof {
            assert(two.views.contains_key(view_id));
            assert(self@.views =~= freed.views);
            assert(self@ =~= freed);
            assert(shown == two.views[view_id].toplevel);
        }
        if let Some(t) = shown {
            if let Some(mut top) = self.toplevels.remove(&t) {
                top.view = None;
                self.toplevels.insert(t, top);
            }
        }
        proof {
            let next = old(self)@.unbinding(view_id).0;
            assert(self@.views == freed.views);
            assert(self@.toplevels =~= next.toplevels);
            assert(self@ =~= next);
        }
        out.push(Action::ForgetScanout(view_id));
        out.push(Action::KeyboardFocus(self.keyboard_target()));
        assert(out@ == start + old(self)@.unbinding(view_id).1);
    }

    /// The toplevel is going away: its view shows nothing new until it binds
    /// another.
    pub fn unbind_toplevel(&mut self, toplevel_id: i64, out: &mut Vec<Action>)
        requires
            old(self)@.wf(),
            old(self)@.numbers_left(),
        ensures
            final(self)@ == old(self)@.unbinding_toplevel(toplevel_id).0,
            final(self)@.wf(),
            final(out)@ == old(out)@ + old(self)@.unbinding_toplevel(toplevel_id).1,
    {
        let view: Option<i32> = match self.toplevels.get(&toplevel_id) {
            Some(t) => t.view,
            None => None,
        };
        match view {
            Some(view_id) => self.unbind_view(view_id, out),
            None => {
                assert(out@ == old(out)@ + Seq::<Action>::empty());
            },
        }
    }
}

impl State {
    /// A client made a toplevel: its id.
    pub fn add_toplevel(&mut self, surface: u64, client: Option<u64>) -> (id: i64)
        requires
            old(self)@.wf(),
            old(self).last_toplevel < i64::MAX,
        ensures
            id == old(self).last_toplevel + 1,
            final(self)@ == old(self)@.with_toplevel(surface, client),
            final(self)@.wf(),
    {
        let id: i64 = self.last_toplevel + 1;
        self.last_toplevel = id;
        self.toplevels.insert(
            id,
            ToplevelEntry {
                surface,
                client,
                app_id: String::new(),
                title: String::new(),
                token: None,
                mapped: false,
                view: None,
            },
        );
        proof {
            let next = old(self)@.with_toplevel(surface, client);
            assert(self@.toplevels =~= next.toplevels);
            assert(self@ =~= next);
            assert forall|u: i64| #[trigger] self@.toplevels.contains_key(u) implies (
            self@.toplevels[u].view matches Some(w) ==> self@.views.contains_key(w)
                && self@.views[w].toplevel == Some(u)) && 1 <= u <= self@.last_toplevel by {
                if u != id {
                    assert(old(self)@.toplevels.contains_key(u));
                }
            }
            assert forall|w: i32| #[trigger] self@.views.contains_key(w) implies (
            self@.views[w].toplevel matches Some(u) ==> self@.toplevels.contains_key(u)
                && self@.toplevels[u].view == Some(w)) && self@.views[w].wf() by {
                assert(old(self)@.views.contains_key(w));
            }
        }
        id
    }

    /// The client named its toplevel.
    pub fn name_toplevel(&mut self, id: i64, app_id: String, title: String)
        requires
            old(self)@.wf(),
        ensures
            final(self)@ == old(self)@.naming(id, app_id@, title@),
            final(self)@.wf(),
    {
        if let Some(mut t) = self.toplevels.remove(&id) {
            t.app_id = app_id;
            t.title = title;
            self.toplevels.insert(id, t);
        }
        proof {
            let next = old(self)@.naming(id, app_id@, title@);
            assert(self@.toplevels =~= next.toplevels);
            assert(self@ =~= next);
            if old(self)@.toplevels.contains_key(id) {
                toplevel_edits_keep_wf(old(self)@, id, next.toplevels[id]);
            }
        }
    }

    /// The toplevel committed; the first time, it is mapped. Whether it was.
    pub fn toplevel_commit(&mut self, id: i64, out: &mut Vec<Action>) -> (mapped: bool)
        requires
            old(self)@.wf(),
        ensures
            mapped == (old(self)@.toplevels.contains_key(id) && !old(self)@.toplevels[id].mapped),
            final(self)@ == old(self)@.mapping(id).0,
            final(self)@.wf(),
            final(out)@ == old(out)@ + old(self)@.mapping(id).1,
    {
        let new: bool = match self.toplevels.get(&id) {
            Some(t) => !t.mapped,
            None => false,
        };
        if !new {
            assert(out@ == old(out)@ + Seq::<Action>::empty());
            return false;
        }
        if let Some(mut t) = self.toplevels.remove(&id) {
            t.mapped = true;
            self.toplevels.insert(id, t);
        }
        proof {
            let t = ToplevelModel { mapped: true, ..old(self)@.toplevels[id] };
            let next = old(self)@.put_toplevel(id, t);
            assert(self@.toplevels =~= next.toplevels);
            assert(self@ =~= next);
            toplevel_edits_keep_wf(old(self)@, id, t);
        }
        self.bind_waiting_views(out);
        true
    }

    /// The toplevel was destroyed. Its app_id, if it was mapped.
    pub fn toplevel_destroyed(&mut self, id: i64, out: &mut Vec<Action>) -> (app_id: Option<String>)
        requires
            old(self)@.wf(),
            old(self)@.numbers_left(),
        ensures
            match app_id {
                Some(a) => old(self)@.toplevels.contains_key(id) && old(self)@.toplevels[id].mapped
                    && a@ == old(self)@.toplevels[id].app_id,
                None => !old(self)@.toplevels.contains_key(id)
                    || !old(self)@.toplevels[id].mapped,
            },
            final(self)@ == old(self)@.destroying(id).0,
            final(self)@.wf(),
            final(out)@ == old(out)@ + old(self)@.destroying(id).1,
    {
        proof {
            if old(self)@.toplevels.contains_key(id) && old(self)@.toplevels[id].view is Some {
                unbinding_is_kept(old(self)@, old(self)@.toplevels[id].view->0);
            }
        }
        self.unbind_toplevel(id, out);
        let ghost freed = self@;
        let gone = self.toplevels.remove(&id);
        proof {
            let next = old(self)@.destroying(id).0;
            assert(self@.toplevels =~= next.toplevels);
            assert(self@ =~= next);
            assert forall|w: i32| #[trigger] self@.views.contains_key(w) implies (
            self@.views[w].toplevel matches Some(u) ==> self@.toplevels.contains_key(u)
                && self@.toplevels[u].view == Some(w)) && self@.views[w].wf() by {
                assert(freed.views.contains_key(w));
            }
            assert forall|u: i64| #[trigger] self@.toplevels.contains_key(u) implies (
            self@.toplevels[u].view matches Some(w) ==> self@.views.contains_key(w)
                && self@.views[w].toplevel == Some(u)) && 1 <= u <= self@.last_toplevel by {
                assert(freed.toplevels.contains_key(u));
            }
        }
        match gone {
            Some(t) => {
                if t.mapped {
                    Some(t.app_id)
                } else {
                    None
                }
            },
            None => None,
        }
    }

    /// A token was made for a client about to be launched. It waits for its
    /// client however long that takes to start.
    pub fn issue_activation_token(&mut self, token: String)
        requires
            old(self)@.wf(),
        ensures
            final(self)@ == (StateModel { tokens: old(self)@.tokens.push(token@), ..old(self)@ }),
            final(self)@.wf(),
    {
        self.tokens.push(token);
        assert(self@.tokens =~= old(self)@.tokens.push(token@));
        assert(self@ =~= (StateModel { tokens: old(self)@.tokens.push(token@), ..old(self)@ }));
    }

    /// Use up `token`: whether the server had handed it out.
    fn use_token(&mut self, token: &String) -> (issued: bool)
        ensures
            issued == old(self)@.tokens.contains(token@),
            final(self)@ == (StateModel {
                tokens: old(self)@.tokens.filter(not_token(token@)),
                ..old(self)@
            }),
    {
        let ghost p = not_token(token@);
        let ghost all = self@.tokens;
        let mut kept: Vec<String> = Vec::new();
        let mut issued: bool = false;
        let mut i: usize = 0;
        proof {
            assert(all.take(0) == Seq::<Seq<char>>::empty());
            assert(Seq::<Seq<char>>::empty().filter(p) == Seq::<Seq<char>>::empty()) by {
                reveal(Seq::filter);
            }
            assert(texts(kept@) =~= Seq::<Seq<char>>::empty());
        }
        while i < self.tokens.len()
            invariant
                i <= self.tokens.len(),
                self@ == old(self)@,
                all == self@.tokens,
                p == not_token(token@),
                texts(kept@) == all.take(i as int).filter(p),
                issued == exists|j: int| 0 <= j < i && all[j] == token@,
            decreases self.tokens.len() - i,
        {
            proof {
                assert(all[i as int] == self.tokens@[i as int]@);
                assert(all.take(i + 1) == all.take(i as int).push(all[i as int]));
                all.take(i as int).lemma_filter_push(all[i as int], p);
            }
            let ghost before = kept@;
            if self.tokens[i] == *token {
                issued = true;
            } else {
                kept.push(self.tokens[i].clone());
                assert(texts(kept@) =~= texts(before).push(all[i as int]));
            }
            i += 1;
        }
        assert(all.take(i as int) == all);
        self.tokens = kept;
        assert(self@.tokens =~= texts(kept@));
        assert(issued == all.contains(token@));
        issued
    }

    /// Whether a view names `token`.
    fn is_wanted(&self, token: &String) -> (yes: bool)
        ensures
            yes == self@.wanted(token@),
    {
        let keys = crate::maps::keys_of(&self.views);
        let mut i: usize = 0;
        while i < keys.len()
            invariant
                i <= keys.len(),
                crate::maps::lists(keys@, self.views@.dom()),
                forall|j: int|
                    0 <= j < i ==> self@.views[#[trigger] keys@[j]].token != Some(token@),
            decreases keys.len() - i,
        {
            let v: i32 = keys[i];
            proof {
                assert(keys@.contains(v));
                assert(self.views@.dom().contains(v));
            }
            if let Some(view) = self.views.get(&v) {
                if let Some(t) = &view.params.token {
                    if *t == *token {
                        assert(self@.views.contains_key(v));
                        return true;
                    }
                }
            }
            i += 1;
        }
        proof {
            assert forall|v: i32| #[trigger] self@.views.contains_key(v) implies self@.views[v].token
                != Some(token@) by {
                assert(self.views@.dom().contains(v));
                assert(keys@.contains(v));
                let j = choose|j: int| 0 <= j < keys@.len() && keys@[j] == v;
                assert(self@.views[keys@[j]].token != Some(token@));
            }
        }
        false
    }

    /// A surface of the toplevel was activated with a token.
    pub fn request_activation(&mut self, token: String, toplevel: Option<i64>, out: &mut Vec<Action>)
        requires
            old(self)@.wf(),
            old(self)@.numbers_left(),
        ensures
            final(self)@ == old(self)@.activating(token@, toplevel).0,
            final(self)@.wf(),
            final(out)@ == old(out)@ + old(self)@.activating(token@, toplevel).1,
    {
        let ghost start = out@;
        let id: i64 = match toplevel {
            Some(id) => id,
            None => {
                assert(out@ == start + Seq::<Action>::empty());
                return;
            },
        };
        if !self.use_token(&token) {
            proof {
                no_such_token(old(self)@.tokens, token@);
                assert(self@ =~= old(self)@);
                assert(out@ == start + Seq::<Action>::empty());
            }
            return;
        }
        let ghost used = self@;
        let mut shown: Option<i32> = None;
        match self.toplevels.remove(&id) {
            Some(mut t) => {
                shown = t.view;
                t.token = Some(token.clone());
                self.toplevels.insert(id, t);
            },
            None => {
                assert(self@.toplevels =~= used.toplevels);
                assert(self@ =~= used);
                assert(out@ == start + Seq::<Action>::empty());
                return;
            },
        }
        let ghost named = used.put_toplevel(
            id,
            ToplevelModel { token: Some(token@), ..used.toplevels[id] },
        );
        proof {
            assert(self@.toplevels =~= named.toplevels);
            assert(self@ =~= named);
            toplevel_edits_keep_wf(used, id, named.toplevels[id]);
        }
        if let Some(v) = shown {
            assert(named.toplevels.contains_key(id));
            assert(named.views.contains_key(v));
            let has: bool = match self.views.get(&v) {
                Some(view) => match &view.params.token {
                    Some(t) => *t == token,
                    None => false,
                },
                None => false,
            };
            if has || !self.is_wanted(&token) {
                assert(out@ == start + Seq::<Action>::empty());
                return;
            }
            self.unbind_view(v, out);
            let ghost freed = self@;
            self.bind_waiting_views(out);
            assert(out@ == start + (named.unbinding(v).1 + freed.bind_waiting().1));
        } else {
            self.bind_waiting_views(out);
        }
    }

    /// A view was created by the shell.
    pub fn view_created(
        &mut self,
        view_id: i32,
        params: ViewParams,
        size: Option<(i32, i32)>,
        out: &mut Vec<Action>,
    )
        requires
            old(self)@.wf(),
            old(self)@.numbers_left(),
        ensures
            final(self)@ == old(self)@.creating(view_id, fresh_view(params, size)).0,
            final(self)@.wf(),
            final(out)@ == old(out)@ + old(self)@.creating(view_id, fresh_view(params, size)).1,
            final(self)@.views.contains_key(view_id),
            params.dpr matches Some(d) ==> final(self)@.views[view_id].dpr == d,
            params.dpr is None ==> final(self)@.views[view_id].dpr == Ratio::Whole(1),
            final(self)@.views[view_id].size == size,
            params.token matches Some(token) ==> final(self)@.views[view_id].token == Some(token@),
            params.token is None ==> final(self)@.views[view_id].token is None,
            params.app_id matches Some(id) ==> final(self)@.views[view_id].app_id == Some(id@),
            params.app_id is None ==> final(self)@.views[view_id].app_id is None,
            final(out)@.contains(Action::OutputScale(view_id)),
    {
        let ghost start = out@;
        proof {
            crate::binding::a_view_is_created_as_asked(self@, view_id, params, size);
            let acts = self@.creating(view_id, fresh_view(params, size)).1;
            assert((start + acts)[start.len() as int] == Action::OutputScale(view_id));
        }
        out.push(Action::OutputScale(view_id));
        proof {
            if old(self)@.views.contains_key(view_id) {
                unbinding_is_kept(old(self)@, view_id);
            }
        }
        self.unbind_view(view_id, out);
        let ghost freed = self@;
        let dpr = match params.dpr {
            Some(dpr) => dpr,
            None => Ratio::Whole(1),
        };
        let entry = ViewEntry {
            params,
            toplevel: None,
            size,
            dpr,
            seq: 0,
            holds: Holds::new(),
            cleared: false,
            frames: Frames::new(),
            suspended: false,
            answer: None,
        };
        self.views.insert(view_id, entry);
        proof {
            let view = fresh_view(params, size);
            let next = freed.put_view(view_id, view);
            assert(entry@ =~= view);
            assert(self@.views =~= next.views);
            assert(self@ =~= next);
            assert(view.wf());
            assert forall|w: i32| #[trigger] next.views.contains_key(w) implies (
            next.views[w].toplevel matches Some(u) ==> next.toplevels.contains_key(u)
                && next.toplevels[u].view == Some(w)) && next.views[w].wf() by {
                if w != view_id {
                    assert(freed.views.contains_key(w));
                }
            }
            assert forall|u: i64| #[trigger] next.toplevels.contains_key(u) implies (
            next.toplevels[u].view matches Some(w) ==> next.views.contains_key(w)
                && next.views[w].toplevel == Some(u)) by {
                assert(freed.toplevels.contains_key(u));
            }
        }
        self.try_bind_view(view_id, out);
        assert(out@ == start + old(self)@.creating(view_id, fresh_view(params, size)).1);
    }

    /// A view was disposed of by the shell; nothing is submitted to it any
    /// more.
    pub fn view_disposed(&mut self, view_id: i32, out: &mut Vec<Action>)
        requires
            old(self)@.wf(),
            old(self)@.numbers_left(),
        ensures
            final(self)@ == old(self)@.disposing(view_id).0,
            final(self)@.wf(),
            final(out)@ == old(out)@ + old(self)@.disposing(view_id).1,
    {
        proof {
            if old(self)@.views.contains_key(view_id) {
                unbinding_is_kept(old(self)@, view_id);
            }
        }
        self.unbind_view(view_id, out);
        let ghost freed = self@;
        self.views.remove(&view_id);
        self.buffers.forget_view(view_id);
        if let Some(v) = self.focused_view {
            if v == view_id {
                self.focused_view = None;
            }
        }
        proof {
            let next = old(self)@.disposing(view_id).0;
            assert(self@.views =~= next.views);
            assert(self@ =~= next);
            assert forall|w: i32| #[trigger] next.views.contains_key(w) implies (
            next.views[w].toplevel matches Some(u) ==> next.toplevels.contains_key(u)
                && next.toplevels[u].view == Some(w)) && next.views[w].wf() by {
                assert(freed.views.contains_key(w));
            }
            assert forall|u: i64| #[trigger] next.toplevels.contains_key(u) implies (
            next.toplevels[u].view matches Some(w) ==> next.views.contains_key(w)
                && next.views[w].toplevel == Some(u)) by {
                assert(freed.toplevels.contains_key(u));
            }
        }
    }

    /// A view was laid out at this size, in physical pixels.
    pub fn view_resized(&mut self, view_id: i32, width: i32, height: i32, out: &mut Vec<Action>)
        requires
            old(self)@.wf(),
        ensures
            final(self)@ == old(self)@.resizing(view_id, width, height).0,
            final(self)@.wf(),
            final(out)@ == old(out)@ + old(self)@.resizing(view_id, width, height).1,
    {
        if let Some(mut view) = self.views.remove(&view_id) {
            view.size = Some((width, height));
            self.views.insert(view_id, view);
        }
        proof {
            let next = old(self)@.resizing(view_id, width, height).0;
            assert(self@.views =~= next.views);
            assert(self@ =~= next);
            if old(self)@.views.contains_key(view_id) {
                view_edits_keep_wf(old(self)@, view_id, next.views[view_id]);
            }
        }
        self.configure_view(view_id, out);
    }
}

/// Texts, as characters.
pub open spec fn texts(s: Seq<String>) -> Seq<Seq<char>> {
    s.map_values(|t: String| t@)
}

proof fn no_such_token(tokens: Seq<Seq<char>>, token: Seq<char>)
    requires
        !tokens.contains(token),
    ensures
        tokens.filter(not_token(token)) == tokens,
    decreases tokens.len(),
{
    let p = not_token(token);
    if tokens.len() == 0 {
        assert(tokens.filter(p) =~= tokens) by {
            reveal(Seq::filter);
        }
    } else {
        let d = tokens.drop_last();
        assert forall|i: int| 0 <= i < d.len() implies d[i] != token by {
            assert(tokens[i] != token);
        }
        no_such_token(d, token);
        assert(tokens == d.push(tokens.last()));
        assert(tokens[tokens.len() - 1] != token);
        d.lemma_filter_push(tokens.last(), p);
    }
}

/// Changing a toplevel, but not the view that shows it, keeps the state sound.
pub proof fn toplevel_edits_keep_wf(s: StateModel, t: i64, toplevel: ToplevelModel)
    requires
        s.bindings_wf(),
        s.toplevels.contains_key(t),
        toplevel.view == s.toplevels[t].view,
    ensures
        s.put_toplevel(t, toplevel).bindings_wf(),
        s.wf() ==> s.put_toplevel(t, toplevel).wf(),
{
    let n = s.put_toplevel(t, toplevel);
    assert forall|w: i32| #[trigger] n.views.contains_key(w) implies (n.views[w].toplevel matches Some(
        u,
    ) ==> n.toplevels.contains_key(u) && n.toplevels[u].view == Some(w)) by {
        assert(s.views.contains_key(w));
    }
    assert forall|u: i64| #[trigger] n.toplevels.contains_key(u) implies (
    n.toplevels[u].view matches Some(w) ==> n.views.contains_key(w) && n.views[w].toplevel == Some(
        u,
    )) && 1 <= u <= n.last_toplevel by {
        assert(s.toplevels.contains_key(u));
    }
    if s.wf() {
        assert forall|w: i32| #[trigger] n.views.contains_key(w) implies n.views[w].wf() by {
            assert(s.views.contains_key(w));
        }
    }
}

/// Changing a view within its bounds, but not what it shows, keeps the state
/// sound.
pub proof fn view_edits_keep_wf(s: StateModel, v: i32, view: ViewModel)
    requires
        s.wf(),
        s.views.contains_key(v),
        view.toplevel == s.views[v].toplevel,
        view.wf(),
    ensures
        s.put_view(v, view).wf(),
{
    let n = s.put_view(v, view);
    assert forall|w: i32| #[trigger] n.views.contains_key(w) implies (n.views[w].toplevel matches Some(
        u,
    ) ==> n.toplevels.contains_key(u) && n.toplevels[u].view == Some(w)) && n.views[w].wf() by {
        assert(s.views.contains_key(w));
    }
    assert forall|u: i64| #[trigger] n.toplevels.contains_key(u) implies (
    n.toplevels[u].view matches Some(w) ==> n.views.contains_key(w) && n.views[w].toplevel == Some(
        u,
    )) by {
        assert(s.toplevels.contains_key(u));
    }
}

/// Unbinding a view keeps bindings mutual, and leaves the view and the
/// toplevel it showed free.
pub proof fn unbinding_is_kept(s: StateModel, v: i32)
    requires
        s.bindings_wf(),
        s.views.contains_key(v),
    ensures
        s.unbinding(v).0.bindings_wf(),
        s.wf() ==> s.unbinding(v).0.wf(),
        s.unbinding(v).0.views.dom() == s.views.dom(),
        s.unbinding(v).0.views[v].toplevel is None,
        s.views[v].toplevel matches Some(t) ==> s.unbinding(v).0.toplevels.contains_key(t)
            && s.unbinding(v).0.toplevels[t].view is None,
{
    let n = s.unbinding(v).0;
    assert(n.views.dom() =~= s.views.dom());
    assert(n.toplevels.dom() =~= s.toplevels.dom());
    assert forall|w: i32| #[trigger] n.views.contains_key(w) implies (n.views[w].toplevel matches Some(
        u,
    ) ==> n.toplevels.contains_key(u) && n.toplevels[u].view == Some(w)) by {
        assert(s.views.contains_key(w));
        assert(s.views.contains_key(v));
    }
    if s.wf() {
        assert forall|w: i32| #[trigger] n.views.contains_key(w) implies n.views[w].wf() by {
            assert(s.views.contains_key(w));
        }
    }
    assert forall|u: i64| #[trigger] n.toplevels.contains_key(u) implies (
    n.toplevels[u].view matches Some(w) ==> n.views.contains_key(w) && n.views[w].toplevel == Some(
        u,
    )) && 1 <= u <= n.last_toplevel by {
        assert(s.toplevels.contains_key(u));
    }
}

/// Binding a view that shows nothing to a toplevel that nothing shows keeps
/// bindings mutual.
pub proof fn binding_is_kept(s: StateModel, v: i32, t: i64)
    requires
        s.bindings_wf(),
        s.views.contains_key(v),
        s.views[v].toplevel is None,
        s.toplevels.contains_key(t),
        s.toplevels[t].view is None,
    ensures
        s.bound(v, t).bindings_wf(),
        s.wf() ==> s.bound(v, t).wf(),
{
    let n = s.bound(v, t);
    assert forall|w: i32| #[trigger] n.views.contains_key(w) implies (n.views[w].toplevel matches Some(
        u,
    ) ==> n.toplevels.contains_key(u) && n.toplevels[u].view == Some(w)) by {
        assert(s.views.contains_key(w));
    }
    assert forall|u: i64| #[trigger] n.toplevels.contains_key(u) implies (
    n.toplevels[u].view matches Some(w) ==> n.views.contains_key(w) && n.views[w].toplevel == Some(
        u,
    )) by {
        assert(s.toplevels.contains_key(u));
    }
    if s.wf() {
        assert forall|w: i32| #[trigger] n.views.contains_key(w) implies n.views[w].wf() by {
            assert(s.views.contains_key(w));
        }
    }
    assert forall|u: i64| #[trigger] n.toplevels.contains_key(u) implies 1 <= u
        <= n.last_toplevel by {
        assert(s.toplevels.contains_key(u));
    }
}

/// No two views show one toplevel, and no view shows two.
pub proof fn a_toplevel_is_shown_once(s: StateModel, v: i32, w: i32, t: i64)
    requires
        s.wf(),
        s.shown_by(v) == Some(t),
        s.shown_by(w) == Some(t),
    ensures
        v == w,
{
    assert(s.views.contains_key(v));
    assert(s.views.contains_key(w));
}

/// A view binds the oldest toplevel it may show: one that is mapped, that no
/// view shows, and that carries the token the view names, or, for a view that
/// names none, carries none and has the app_id it names, if it names one.
pub proof fn a_view_binds_what_it_names(s: StateModel, v: i32, t: i64)
    requires
        s.wf(),
        s.shown_by(v) is None,
        s.try_bind(v).0.shown_by(v) == Some(t),
    ensures
        s.may_bind(v, t),
        forall|u: i64| #[trigger] s.may_bind(v, u) ==> t <= u,
        s.toplevels[t].token == s.views[v].token,
        s.views[v].token is None && s.views[v].app_id is Some ==> s.views[v].app_id == Some(
            s.toplevels[t].app_id,
        ),
{
    assert(s.is_oldest(v, t)) by {
        assert(s.oldest_for(v) == Some(t));
    }
}

/// Where there is a toplevel that a waiting view may show, it is bound.
pub proof fn a_view_is_not_kept_waiting(s: StateModel, v: i32, t: i64)
    requires
        s.bindings_wf(),
        s.views.contains_key(v),
        s.views[v].toplevel is None,
        s.may_bind(v, t),
    ensures
        s.try_bind(v).0.shown_by(v) is Some,
{
    an_oldest_exists(s, v, t);
}

/// Where a view may show a toplevel, there is an oldest that it may show.
pub proof fn an_oldest_exists(s: StateModel, v: i32, t: i64)
    requires
        s.bindings_wf(),
        s.may_bind(v, t),
    ensures
        exists|u: i64| s.is_oldest(v, u),
    decreases t,
{
    if !s.is_oldest(v, t) {
        let u = choose|u: i64| #[trigger] s.may_bind(v, u) && u < t;
        assert(s.toplevels.contains_key(u));
        an_oldest_exists(s, v, u);
    }
}

} // verus!
