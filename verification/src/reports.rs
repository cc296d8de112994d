//! What the shell's reports of shown frames release, and what the clock
//! releases where there are none.
//!
//! A view that is not on screen gets no reports, so a clock phase-locked to
//! the last one stands in: it ticks at the display's refresh while there is
//! anything to release, clearing the fifo barriers of updates nobody shows and
//! applying timed updates when they are due. Frame callbacks are sent when a
//! frame is reported shown, and still sent when it never is: a client waiting
//! on one never stalls. A view off screen holds them until it is shown again.

use vstd::prelude::*;

use crate::action::Action;
use crate::pacing::{PacingModel, Timer};
use crate::state::{State, StateModel, Step, ViewModel};
use crate::timing::{FrameClock, FrameModel, Report, STALE_NS};

verus! {

broadcast use vstd::laws_cmp::group_laws_cmp;

/// A time in nanoseconds as protocol milliseconds, which wrap.
pub open spec fn frame_time(ns: u64) -> u32 {
    ((ns / 1_000_000) % 0x1_0000_0000) as u32
}

/// A time in nanoseconds as protocol milliseconds.
pub fn frame_time_ms(ns: u64) -> (ms: u32)
    ensures
        ms == frame_time(ns),
{
    let ms: u64 = ns / 1_000_000;
    assert(ms as u32 == (ms % 0x1_0000_0000) as u32) by (bit_vector);
    ms as u32
}

/// The cycle once a frame was reported shown.
pub open spec fn clock_after(clock: FrameClock, report: Report) -> FrameClock {
    FrameClock {
        ust_ns: if report.ust_ns > clock.ust_ns {
            report.ust_ns
        } else {
            clock.ust_ns
        },
        refresh_ns: if report.refresh_ns > 0 {
            report.refresh_ns as u64
        } else {
            clock.refresh_ns
        },
    }
}

/// When a frame submitted or a view shown at `now` goes stale.
pub open spec fn stale_after(now: u64) -> u64 {
    crate::timing::clamp_u64(now + STALE_NS) as u64
}

/// Frames submitted before this are released at `now`: all of a view off
/// screen, and stale ones of a view on it.
pub open spec fn release_limit(view: ViewModel, now: u64) -> u64 {
    if view.suspended {
        u64::MAX
    } else {
        crate::timing::monus(now as int, STALE_NS as int) as u64
    }
}

/// Whether the view's frame callbacks are answered at `now`.
pub open spec fn answers_at(view: ViewModel, now: u64) -> bool {
    !view.suspended && (view.answer matches Some(at) && at <= now)
}

/// The view once the clock ticked at `now`.
pub open spec fn ticked(view: ViewModel, now: u64) -> ViewModel {
    let limit = release_limit(view, now);
    ViewModel {
        frames: view.frames.map_values(
            |f: FrameModel| crate::timing::released_before(f, limit),
        ),
        answer: if answers_at(view, now) {
            None
        } else {
            view.answer
        },
        ..view
    }
}

/// What a tick at `now` does with the view.
pub open spec fn tick_actions(v: i32, view: ViewModel, now: u64) -> Seq<Action> {
    crate::timing::clears_before(view.frames, release_limit(view, now)) + if answers_at(
        view,
        now,
    ) {
        seq![Action::FrameCallbacks { view_id: v, time_ms: frame_time(now) }]
    } else {
        Seq::empty()
    }
}

/// When the view needs the next tick after one at `now`, the refresh after
/// which is at `refresh`.
pub open spec fn tick_wake(view: ViewModel, now: u64, refresh: u64) -> Option<u64> {
    let after = ticked(view, now);
    crate::pacing::sooner(
        match crate::timing::stale_at(after.frames) {
            Some(at) => Some(
                if view.suspended {
                    refresh
                } else {
                    at
                },
            ),
            None => None,
        },
        if view.suspended {
            None
        } else {
            after.answer
        },
    )
}

impl StateModel {
    /// The client of view `v`, where frames released let it carry on.
    pub open spec fn freed_client(self, v: i32, released: bool) -> Seq<u64> {
        if released && self.client_of(v) is Some {
            seq![self.client_of(v)->0]
        } else {
            Seq::empty()
        }
    }

    /// What a tick at `now` does with each view.
    pub open spec fn each_tick(self, now: u64) -> spec_fn(i32) -> Seq<Action> {
        |v: i32| tick_actions(v, self.views[v], now)
    }

    /// The client that a tick at `now` lets carry on, for each view.
    pub open spec fn each_client(self, now: u64) -> spec_fn(i32) -> Seq<u64> {
        |v: i32|
            self.freed_client(
                v,
                crate::timing::any_barrier_before(
                    self.views[v].frames,
                    release_limit(self.views[v], now),
                ),
            )
    }

    /// When each view needs the next tick.
    pub open spec fn each_wake(self, now: u64) -> spec_fn(i32) -> Option<u64> {
        |v: i32| tick_wake(self.views[v], now, self.pacing.refresh_after(now))
    }

    /// What releasing everything does with each view.
    pub open spec fn each_release(self) -> spec_fn(i32) -> Seq<Action> {
        |v: i32| crate::timing::clears_before(self.views[v].frames, u64::MAX)
    }

    /// The client that releasing everything lets carry on, for each view.
    pub open spec fn each_released_client(self) -> spec_fn(i32) -> Seq<u64> {
        |v: i32|
            self.freed_client(
                v,
                crate::timing::any_barrier_before(self.views[v].frames, u64::MAX),
            )
    }

    /// The state with another pacing.
    pub open spec fn paced(self, pacing: PacingModel) -> StateModel {
        StateModel { pacing, ..self }
    }

    /// Run the clock at `at`, if that is a time at all.
    pub open spec fn ticking_at(self, at: Option<u64>) -> Step {
        match at {
            Some(at) => (self.paced(self.pacing.scheduled(at)), self.pacing.scheduling(at)),
            None => (self, Seq::empty()),
        }
    }

    /// Frame `report.seq` of view `v` is on screen.
    pub open spec fn presenting(self, v: i32, report: Report) -> Step {
        let clocked = self.paced(
            PacingModel { clock: clock_after(self.pacing.clock, report), ..self.pacing },
        );
        if self.views.contains_key(v) {
            let view = self.views[v];
            let n = crate::timing::up_to(view.frames, report.seq);
            (
                clocked.put_view(
                    v,
                    ViewModel {
                        holds: view.holds.shown(report.seq),
                        frames: view.frames.skip(n),
                        answer: None,
                        ..view
                    },
                ),
                crate::holds::drops(
                    view.holds.unfenced.filter(crate::holds::before_frame(report.seq)),
                ) + crate::timing::reported(
                    view.frames.take(n),
                    crate::timing::shown_by(view.frames, report.seq),
                    report.telling(),
                ) + if view.toplevel is Some {
                    seq![
                        Action::FrameCallbacks {
                            view_id: v,
                            time_ms: frame_time(report.ust_ns),
                        },
                    ]
                } else {
                    Seq::empty()
                } + self.freed_client(v, crate::timing::any_barrier(view.frames.take(n))).map_values(
                    |c: u64| Action::Unblock(c),
                ),
            )
        } else {
            (clocked, Seq::empty())
        }
    }

    /// When barriers of view `v`'s frames are to be looked at again. Off
    /// screen nothing is reported: they clear on the clock.
    pub open spec fn frames_due(self, v: i32, now: u64) -> Option<u64> {
        if !self.views.contains_key(v) {
            None
        } else if self.views[v].suspended {
            Some(self.pacing.refresh_after(now))
        } else {
            crate::timing::stale_at(self.views[v].frames)
        }
    }

    /// When view `v`'s frame callbacks are to be answered: not while it is off
    /// screen.
    pub open spec fn answer_due(self, v: i32) -> Option<u64> {
        if self.views.contains_key(v) && !self.views[v].suspended {
            self.views[v].answer
        } else {
            None
        }
    }

    /// Make sure that what view `v` holds is released even if no report comes.
    pub open spec fn watching_frames(self, v: i32, now: u64) -> Step {
        let a = self.ticking_at(self.frames_due(v, now));
        let b = a.0.ticking_at(a.0.answer_due(v));
        (b.0, a.1 + b.1)
    }

    /// View `v` left or re-entered the scene. Back on screen, what was not
    /// answered has as long as a new frame to be reported.
    pub open spec fn suspending(self, v: i32, suspended: bool, now: u64) -> Step {
        if self.views.contains_key(v) {
            let view = self.views[v];
            let next = self.put_view(
                v,
                ViewModel {
                    suspended,
                    answer: if view.suspended && !suspended && view.answer is Some {
                        Some(stale_after(now))
                    } else {
                        view.answer
                    },
                    ..view
                },
            );
            let due = if suspended {
                if crate::timing::stale_at(view.frames) is Some {
                    Some(self.pacing.refresh_after(now))
                } else {
                    None
                }
            } else {
                next.answer_due(v)
            };
            let last = next.ticking_at(due);
            (
                last.0,
                if suspended && view.toplevel is Some {
                    seq![Action::DismissPopups(v)]
                } else {
                    Seq::empty()
                } + last.1,
            )
        } else {
            (self, Seq::empty())
        }
    }

    /// The clock ticked at `now`; `timers` is what the commit timers of the
    /// timed surfaces said.
    pub open spec fn ticking(self, now: u64, timers: Seq<Timer>) -> Step {
        let ids = crate::maps::listed(self.views.dom());
        let p = self.pacing;
        let due = p.loose.filter(crate::pacing::due_by(now));
        let kept = p.loose.filter(crate::pacing::due_after(now));
        let clients = timers.flat_map(crate::pacing::timer_client()) + crate::pacing::loose_clients(
            due,
        ) + ids.flat_map(self.each_client(now));
        let wake = crate::pacing::sooner(
            crate::pacing::sooner(
                crate::pacing::soonest(timers, crate::pacing::timer_wake(p.clock)),
                crate::pacing::soonest(kept, crate::pacing::loose_wake()),
            ),
            crate::pacing::soonest(ids, self.each_wake(now)),
        );
        let next = StateModel {
            views: self.views.map_values(|view: ViewModel| ticked(view, now)),
            pacing: PacingModel {
                timed: crate::pacing::still_timed(p.timed, timers),
                loose: kept,
                tick: None,
                ..p
            },
            ..self
        };
        let last = next.ticking_at(
            match wake {
                Some(at) => Some(
                    if at < now + crate::pacing::MIN_TICK_NS {
                        (now + crate::pacing::MIN_TICK_NS) as u64
                    } else {
                        at
                    },
                ),
                None => None,
            },
        );
        (
            last.0,
            crate::pacing::loose_clears(due) + ids.flat_map(self.each_tick(now))
                + crate::pacing::unblocks(clients) + last.1,
        )
    }

    /// The clock cannot run: everything that waits on it is released now.
    /// `owners` are the clients of the timed surfaces, whose timers have all
    /// been told to go.
    pub open spec fn releasing_everything(self, owners: Seq<u64>) -> Step {
        let ids = crate::maps::listed(self.views.dom());
        let p = self.pacing;
        (
            StateModel {
                views: self.views.map_values(
                    |view: ViewModel|
                        ViewModel {
                            frames: view.frames.map_values(
                                |f: FrameModel| crate::timing::released_before(f, u64::MAX),
                            ),
                            ..view
                        },
                ),
                pacing: PacingModel {
                    timed: Seq::empty(),
                    loose: Seq::empty(),
                    tick: None,
                    ..p
                },
                ..self
            },
            crate::pacing::loose_clears(p.loose) + ids.flat_map(self.each_release())
                + crate::pacing::unblocks(
                crate::pacing::loose_clients(p.loose) + owners + ids.flat_map(
                    self.each_released_client(),
                ),
            ),
        )
    }
}

impl State {
    /// Run the clock at `at`, if that is a time at all.
    pub(crate) fn tick_at(&mut self, at: Option<u64>, out: &mut Vec<Action>)
        requires
            old(self)@.wf(),
        ensures
            final(self)@ == old(self)@.ticking_at(at).0,
            final(self)@.wf(),
            final(out)@ == old(out)@ + old(self)@.ticking_at(at).1,
    {
        match at {
            Some(at) => {
                self.pacing.schedule_tick(at, out);
                assert(self@ =~= old(self)@.ticking_at(Some(at)).0);
            },
            None => {
                assert(out@ == old(out)@ + Seq::<Action>::empty());
            },
        }
    }

    /// The tree of a surface of `client` committed, but no view shows it: its
    /// feedback is discarded, and its barriers clear at the next refresh.
    pub fn not_shown(
        &mut self,
        client: Option<u64>,
        taken: crate::timing::Taken,
        now_ns: u64,
        out: &mut Vec<Action>,
    )
        requires
            old(self)@.wf(),
            now_ns < u64::MAX,
        ensures
            final(self)@ == old(self)@.paced(
                old(self)@.pacing.holding_loose(client, taken.barriers@, now_ns),
            ),
            final(self)@.wf(),
            final(out)@ == old(out)@ + crate::timing::discards(taken.feedback@)
                + old(self)@.pacing.loose_actions(client, taken.barriers@, now_ns),
    {
        let barriers = taken.not_shown(out);
        self.pacing.hold_loose(client, &barriers, now_ns, out);
        assert(self@ =~= old(self)@.paced(
            old(self)@.pacing.holding_loose(client, taken.barriers@, now_ns),
        ));
    }

    /// Frame `report.seq` of the view is on screen.
    pub fn frame_presented(&mut self, view_id: i32, report: Report, out: &mut Vec<Action>)
        requires
            old(self)@.wf(),
        ensures
            final(self)@ == old(self)@.presenting(view_id, report).0,
            final(self)@.wf(),
            final(out)@ == old(out)@ + old(self)@.presenting(view_id, report).1,
    {
        let ghost start = out@;
        let ghost clocked = self@.paced(
            PacingModel { clock: clock_after(self@.pacing.clock, report), ..self@.pacing },
        );
        self.pacing.clock.update(report.ust_ns, report.refresh_ns);
        assert(self@ =~= clocked);
        let client = self.view_client(view_id);
        let mut released: bool = false;
        let mut shows: bool = false;
        match self.views.remove(&view_id) {
            Some(mut view) => {
                shows = view.toplevel.is_some();
                assert(old(self)@.views.contains_key(view_id));
                view.holds.presented(report.seq, out);
                released = view.frames.presented(report, out);
                view.answer = None;
                self.views.insert(view_id, view);
            },
            None => {
                assert(self@.views =~= clocked.views);
                assert(self@ =~= clocked);
                assert(out@ == start + Seq::<Action>::empty());
                return;
            },
        }
        proof {
            let view = old(self)@.views[view_id];
            let next = old(self)@.presenting(view_id, report).0;
            crate::ledger::up_to_is_a_prefix(view.frames, report.seq);
            assert(self@.views =~= next.views);
            assert(self@ =~= next);
            crate::state::view_edits_keep_wf(clocked, view_id, next.views[view_id]);
        }
        if shows {
            out.push(
                Action::FrameCallbacks { view_id, time_ms: frame_time_ms(report.ust_ns) },
            );
        }
        if released {
            if let Some(client) = client {
                out.push(Action::Unblock(client));
            }
        }
        assert(out@ =~= start + old(self)@.presenting(view_id, report).1);
    }

    /// A frame of the view was submitted: make sure that what it holds is
    /// released even if it is never reported.
    pub fn watch_frames(&mut self, view_id: i32, now_ns: u64, out: &mut Vec<Action>)
        requires
            old(self)@.wf(),
            now_ns < u64::MAX,
        ensures
            final(self)@ == old(self)@.watching_frames(view_id, now_ns).0,
            final(self)@.wf(),
            final(out)@ == old(out)@ + old(self)@.watching_frames(view_id, now_ns).1,
    {
        let at: Option<u64> = match self.views.get(&view_id) {
            Some(view) => {
                if view.suspended {
                    Some(self.pacing.next_refresh(now_ns))
                } else {
                    view.frames.next_stale()
                }
            },
            None => None,
        };
        let ghost start = out@;
        self.tick_at(at, out);
        let answer: Option<u64> = match self.views.get(&view_id) {
            Some(view) => {
                if view.suspended {
                    None
                } else {
                    view.answer
                }
            },
            None => None,
        };
        self.tick_at(answer, out);
        assert(out@ =~= start + old(self)@.watching_frames(view_id, now_ns).1);
    }

    /// The view left (`suspended`) or re-entered the scene.
    pub fn view_suspended(
        &mut self,
        view_id: i32,
        suspended: bool,
        now_ns: u64,
        out: &mut Vec<Action>,
    )
        requires
            old(self)@.wf(),
            now_ns < u64::MAX,
        ensures
            final(self)@ == old(self)@.suspending(view_id, suspended, now_ns).0,
            final(self)@.wf(),
            final(out)@ == old(out)@ + old(self)@.suspending(view_id, suspended, now_ns).1,
    {
        let ghost start = out@;
        let mut shows: bool = false;
        let mut stale: bool = false;
        let mut answer: Option<u64> = None;
        match self.views.remove(&view_id) {
            Some(mut view) => {
                shows = view.toplevel.is_some();
                stale = view.frames.next_stale().is_some();
                if view.suspended && !suspended && view.answer.is_some() {
                    view.answer = Some(now_ns.saturating_add(STALE_NS));
                }
                view.suspended = suspended;
                answer = view.answer;
                self.views.insert(view_id, view);
            },
            None => {
                assert(self@.views =~= old(self)@.views);
                assert(self@ =~= old(self)@);
                assert(out@ == start + Seq::<Action>::empty());
                return;
            },
        }
        let ghost old_view = old(self)@.views[view_id];
        let ghost next = old(self)@.put_view(
            view_id,
            ViewModel {
                suspended,
                answer: if old_view.suspended && !suspended && old_view.answer is Some {
                    Some(stale_after(now_ns))
                } else {
                    old_view.answer
                },
                ..old_view
            },
        );
        proof {
            assert(old(self)@.views.contains_key(view_id));
            assert(self@.views =~= next.views);
            assert(self@ =~= next);
            crate::state::view_edits_keep_wf(old(self)@, view_id, next.views[view_id]);
        }
        if suspended && shows {
            out.push(Action::DismissPopups(view_id));
        }
        let due: Option<u64> = if suspended {
            if stale {
                Some(self.pacing.next_refresh(now_ns))
            } else {
                None
            }
        } else {
            answer
        };
        assert(!suspended ==> due == next.answer_due(view_id));
        self.tick_at(due, out);
        assert(out@ =~= start + old(self)@.suspending(view_id, suspended, now_ns).1);
    }
}

/// Everything about a map of views that were dealt with one by one.
spec fn dealt_with(
    now: Map<i32, ViewModel>,
    before: Map<i32, ViewModel>,
    keys: Seq<i32>,
    n: int,
    f: spec_fn(ViewModel) -> ViewModel,
) -> bool {
    &&& now.dom() == before.dom()
    &&& forall|j: int| 0 <= j < n ==> now[#[trigger] keys[j]] == f(before[keys[j]])
    &&& forall|j: int| n <= j < keys.len() ==> now[#[trigger] keys[j]] == before[keys[j]]
}

proof fn all_dealt_with(
    now: Map<i32, ViewModel>,
    before: Map<i32, ViewModel>,
    keys: Seq<i32>,
    f: spec_fn(ViewModel) -> ViewModel,
)
    requires
        crate::maps::lists(keys, before.dom()),
        dealt_with(now, before, keys, keys.len() as int, f),
    ensures
        now == before.map_values(f),
{
    assert forall|v: i32| now.contains_key(v) implies #[trigger] now[v] == before.map_values(f)[v] by {
        assert(before.dom().contains(v));
        assert(keys.contains(v));
        let j = choose|j: int| 0 <= j < keys.len() && keys[j] == v;
        assert(now[keys[j]] == f(before[keys[j]]));
    }
    assert(now =~= before.map_values(f));
}

/// Views dealt with one by one stay sound, where what is done to each does not
/// change what it shows and keeps it within its bounds.
proof fn dealing_keeps_wf(s: StateModel, n: StateModel, f: spec_fn(ViewModel) -> ViewModel)
    requires
        s.wf(),
        n.pacing.wf(),
        n.toplevels == s.toplevels,
        n.last_toplevel == s.last_toplevel,
        n.views == s.views.map_values(f),
        forall|view: ViewModel| #[trigger]
            f(view).toplevel == view.toplevel && (view.wf() ==> f(view).wf()),
    ensures
        n.wf(),
{
    assert(n.views.dom() =~= s.views.dom());
    assert forall|w: i32| #[trigger] n.views.contains_key(w) implies (n.views[w].toplevel matches Some(
        u,
    ) ==> n.toplevels.contains_key(u) && n.toplevels[u].view == Some(w)) && n.views[w].wf() by {
        assert(s.views.contains_key(w));
        assert(n.views[w] == f(s.views[w]));
        assert(f(s.views[w]).toplevel == s.views[w].toplevel);
    }
    assert forall|u: i64| #[trigger] n.toplevels.contains_key(u) implies (
    n.toplevels[u].view matches Some(w) ==> n.views.contains_key(w) && n.views[w].toplevel == Some(
        u,
    )) && 1 <= u <= n.last_toplevel by {
        assert(s.toplevels.contains_key(u));
        if n.toplevels[u].view is Some {
            let w = n.toplevels[u].view->0;
            assert(f(s.views[w]).toplevel == s.views[w].toplevel);
        }
    }
}

impl State {
    /// Run the clock over the views. When the next tick is needed; `clients`
    /// gathers those whose frames were released.
    fn tick_views(
        &mut self,
        now_ns: u64,
        refresh: u64,
        clients: &mut Vec<u64>,
        out: &mut Vec<Action>,
    ) -> (wake: Option<u64>)
        requires
            old(self)@.wf(),
            refresh == old(self)@.pacing.refresh_after(now_ns),
        ensures
            final(self)@ == (StateModel {
                views: old(self)@.views.map_values(|view: ViewModel| ticked(view, now_ns)),
                ..old(self)@
            }),
            final(self)@.wf(),
            final(out)@ == old(out)@ + crate::maps::listed(old(self)@.views.dom()).flat_map(
                old(self)@.each_tick(now_ns),
            ),
            final(clients)@ == old(clients)@ + crate::maps::listed(
                old(self)@.views.dom(),
            ).flat_map(old(self)@.each_client(now_ns)),
            wake == crate::pacing::soonest(
                crate::maps::listed(old(self)@.views.dom()),
                old(self)@.each_wake(now_ns),
            ),
    {
        let keys = crate::maps::keys_of(&self.views);
        let ghost s = self@;
        let ghost f = |view: ViewModel| ticked(view, now_ns);
        let ghost acts = s.each_tick(now_ns);
        let ghost cls = s.each_client(now_ns);
        let ghost wks = s.each_wake(now_ns);
        proof {
            assert(s.views.dom() =~= self.views@.dom());
            crate::maps::listing_is_unique(
                keys@,
                crate::maps::listed(s.views.dom()),
                s.views.dom(),
            );
            crate::maps::ascending(keys@);
            assert(keys@.take(0) == Seq::<i32>::empty());
            assert(keys@.take(0).flat_map(acts) == Seq::<Action>::empty()) by {
                reveal(Seq::flatten);
            }
            assert(keys@.take(0).flat_map(cls) == Seq::<u64>::empty()) by {
                reveal(Seq::flatten);
            }
        }
        let limit: u64 = now_ns.saturating_sub(STALE_NS);
        let mut wake: Option<u64> = None;
        let mut i: usize = 0;
        while i < keys.len()
            invariant
                i <= keys.len(),
                s == old(self)@,
                s.wf(),
                refresh == s.pacing.refresh_after(now_ns),
                limit == crate::timing::monus(now_ns as int, STALE_NS as int),
                f == (|view: ViewModel| ticked(view, now_ns)),
                acts == s.each_tick(now_ns),
                cls == s.each_client(now_ns),
                wks == s.each_wake(now_ns),
                crate::maps::lists(keys@, s.views.dom()),
                forall|a: int, b: int| 0 <= a < b < keys@.len() ==> keys@[a] < keys@[b],
                dealt_with(self@.views, s.views, keys@, i as int, f),
                self@ == (StateModel { views: self@.views, ..s }),
                out@ == old(out)@ + keys@.take(i as int).flat_map(acts),
                clients@ == old(clients)@ + keys@.take(i as int).flat_map(cls),
                wake == crate::pacing::soonest(keys@.take(i as int), wks),
            decreases keys.len() - i,
        {
            let v: i32 = keys[i];
            let ghost before = self@;
            proof {
                assert(keys@.contains(v));
                assert(s.views.dom().contains(v));
                assert(s.views.contains_key(v));
                assert(before.views[keys@[i as int]] == s.views[v]);
                keys@.lemma_flat_map_take_append(acts, i as int);
                keys@.lemma_flat_map_take_append(cls, i as int);
                assert(keys@.take(i + 1).drop_last() == keys@.take(i as int));
                assert(keys@.take(i + 1).last() == v);
            }
            let client = self.view_client(v);
            proof {
                assert(before.client_of(v) == s.client_of(v));
            }
            if let Some(mut view) = self.views.remove(&v) {
                let ghost was = view@;
                assert(was == s.views[v]);
                let released: bool = if view.suspended {
                    view.frames.release_all(out)
                } else {
                    view.frames.release_older(limit, out)
                };
                if released {
                    if let Some(client) = client {
                        clients.push(client);
                    }
                }
                let mut due: bool = false;
                if !view.suspended {
                    if let Some(at) = view.answer {
                        due = at <= now_ns;
                    }
                }
                if due {
                    view.answer = None;
                    out.push(
                        Action::FrameCallbacks { view_id: v, time_ms: frame_time_ms(now_ns) },
                    );
                }
                let stale: Option<u64> = match view.frames.next_stale() {
                    Some(at) => Some(
                        if view.suspended {
                            refresh
                        } else {
                            at
                        },
                    ),
                    None => None,
                };
                let answer: Option<u64> = if view.suspended {
                    None
                } else {
                    view.answer
                };
                wake = crate::pacing::sooner_of(
                    wake,
                    crate::pacing::sooner_of(stale, answer),
                );
                assert(view@ =~= ticked(was, now_ns));
                self.views.insert(v, view);
            }
            proof {
                assert(self@.views =~= before.views.insert(v, ticked(s.views[v], now_ns)));
                assert(self@.views.dom() =~= s.views.dom());
                assert forall|j: int| 0 <= j < i + 1 implies self@.views[#[trigger] keys@[j]] == f(
                    s.views[keys@[j]],
                ) by {
                    if j < i {
                        assert(before.views[keys@[j]] == f(s.views[keys@[j]]));
                    }
                }
                assert forall|j: int| i + 1 <= j < keys@.len() implies self@.views[#[trigger]
                keys@[j]] == s.views[keys@[j]] by {
                    assert(before.views[keys@[j]] == s.views[keys@[j]]);
                }
                assert(self@ =~= (StateModel { views: self@.views, ..s }));
                assert(out@ =~= old(out)@ + keys@.take(i + 1).flat_map(acts));
                assert(clients@ =~= old(clients)@ + keys@.take(i + 1).flat_map(cls));
            }
            i += 1;
        }
        proof {
            assert(keys@.take(i as int) == keys@);
            all_dealt_with(self@.views, s.views, keys@, f);
            dealing_keeps_wf(s, self@, f);
        }
        wake
    }

    /// The clock ticked at `now_ns`. `timers` is what the commit timers of the
    /// timed surfaces, in order, said when told that updates up to `tick_due`
    /// are due.
    pub fn on_tick(&mut self, now_ns: u64, timers: &Vec<Timer>, out: &mut Vec<Action>)
        requires
            old(self)@.wf(),
            now_ns <= u64::MAX - crate::pacing::MIN_TICK_NS,
            timers@.len() == old(self)@.pacing.timed.len(),
        ensures
            final(self)@ == old(self)@.ticking(now_ns, timers@).0,
            final(self)@.wf(),
            final(out)@ == old(out)@ + old(self)@.ticking(now_ns, timers@).1,
    {
        let ghost start = out@;
        let ghost s = self@;
        let mut clients: Vec<u64> = Vec::new();
        self.pacing.tick = None;
        let refresh: u64 = self.pacing.next_refresh(now_ns);
        let w1: Option<u64> = self.pacing.tick_timers(timers, &mut clients);
        let w2: Option<u64> = self.pacing.tick_loose(now_ns, &mut clients, out);
        let ghost mid = self@;
        let w3: Option<u64> = self.tick_views(now_ns, refresh, &mut clients, out);
        proof {
            assert(mid.views == s.views);
            assert(mid.each_tick(now_ns) =~= s.each_tick(now_ns));
            assert(mid.each_client(now_ns) =~= s.each_client(now_ns)) by {
                assert forall|v: i32| #[trigger] mid.each_client(now_ns)(v) == s.each_client(
                    now_ns,
                )(v) by {
                    assert(mid.client_of(v) == s.client_of(v));
                }
            }
            assert(mid.each_wake(now_ns) =~= s.each_wake(now_ns));
        }
        crate::pacing::unblock_all(&clients, out);
        let wake: Option<u64> = crate::pacing::sooner_of(
            crate::pacing::sooner_of(w1, w2),
            w3,
        );
        let least: u64 = now_ns + crate::pacing::MIN_TICK_NS;
        let at: Option<u64> = match wake {
            Some(at) => Some(
                if at < least {
                    least
                } else {
                    at
                },
            ),
            None => None,
        };
        self.tick_at(at, out);
        assert(out@ =~= start + s.ticking(now_ns, timers@).1);
    }

    /// The clock could not run: release everything now. `owners` are the
    /// clients of the timed surfaces, whose timers have all been told to go.
    pub fn release_everything(&mut self, owners: &Vec<u64>, out: &mut Vec<Action>)
        requires
            old(self)@.wf(),
        ensures
            final(self)@ == old(self)@.releasing_everything(owners@).0,
            final(self)@.wf(),
            final(out)@ == old(out)@ + old(self)@.releasing_everything(owners@).1,
    {
        let ghost start = out@;
        let ghost s = self@;
        let mut clients: Vec<u64> = Vec::new();
        self.pacing.tick = None;
        self.pacing.drain_loose(&mut clients, out);
        self.pacing.timed.clear();
        let mut k: usize = 0;
        let ghost loose_cls = clients@;
        assert(owners@.take(0) == Seq::<u64>::empty());
        while k < owners.len()
            invariant
                k <= owners.len(),
                clients@ == loose_cls + owners@.take(k as int),
            decreases owners.len() - k,
        {
            assert(owners@.take(k + 1) == owners@.take(k as int).push(owners@[k as int]));
            clients.push(owners[k]);
            k += 1;
        }
        assert(owners@.take(k as int) == owners@);
        let ghost mid = self@;
        let ghost mid_out = out@;
        let ghost mid_clients = clients@;
        let keys = crate::maps::keys_of(&self.views);
        let ghost f = |view: ViewModel|
            ViewModel {
                frames: view.frames.map_values(
                    |f: FrameModel| crate::timing::released_before(f, u64::MAX),
                ),
                ..view
            };
        let ghost acts = s.each_release();
        let ghost cls = s.each_released_client();
        proof {
            assert(mid.views == s.views);
            assert(s.views.dom() =~= self.views@.dom());
            crate::maps::listing_is_unique(
                keys@,
                crate::maps::listed(s.views.dom()),
                s.views.dom(),
            );
            crate::maps::ascending(keys@);
            assert(keys@.take(0) == Seq::<i32>::empty());
            assert(keys@.take(0).flat_map(acts) == Seq::<Action>::empty()) by {
                reveal(Seq::flatten);
            }
            assert(keys@.take(0).flat_map(cls) == Seq::<u64>::empty()) by {
                reveal(Seq::flatten);
            }
        }
        let mut i: usize = 0;
        while i < keys.len()
            invariant
                i <= keys.len(),
                s.wf(),
                mid.views == s.views,
                mid.toplevels == s.toplevels,
                f == (|view: ViewModel|
                    ViewModel {
                        frames: view.frames.map_values(
                            |f: FrameModel| crate::timing::released_before(f, u64::MAX),
                        ),
                        ..view
                    }),
                acts == s.each_release(),
                cls == s.each_released_client(),
                crate::maps::lists(keys@, s.views.dom()),
                forall|a: int, b: int| 0 <= a < b < keys@.len() ==> keys@[a] < keys@[b],
                dealt_with(self@.views, s.views, keys@, i as int, f),
                self@ == (StateModel { views: self@.views, ..mid }),
                out@ == mid_out + keys@.take(i as int).flat_map(acts),
                clients@ == mid_clients + keys@.take(i as int).flat_map(cls),
            decreases keys.len() - i,
        {
            let v: i32 = keys[i];
            let ghost before = self@;
            proof {
                assert(keys@.contains(v));
                assert(s.views.dom().contains(v));
                assert(s.views.contains_key(v));
                assert(before.views[keys@[i as int]] == s.views[v]);
                keys@.lemma_flat_map_take_append(acts, i as int);
                keys@.lemma_flat_map_take_append(cls, i as int);
            }
            let client = self.view_client(v);
            proof {
                assert(before.client_of(v) == s.client_of(v));
            }
            if let Some(mut view) = self.views.remove(&v) {
                let ghost was = view@;
                if view.frames.release_all(out) {
                    if let Some(client) = client {
                        clients.push(client);
                    }
                }
                assert(view@ =~= f(was));
                self.views.insert(v, view);
            }
            proof {
                assert(self@.views =~= before.views.insert(v, f(s.views[v])));
                assert(self@.views.dom() =~= s.views.dom());
                assert forall|j: int| 0 <= j < i + 1 implies self@.views[#[trigger] keys@[j]] == f(
                    s.views[keys@[j]],
                ) by {
                    if j < i {
                        assert(before.views[keys@[j]] == f(s.views[keys@[j]]));
                    }
                }
                assert forall|j: int| i + 1 <= j < keys@.len() implies self@.views[#[trigger]
                keys@[j]] == s.views[keys@[j]] by {
                    assert(before.views[keys@[j]] == s.views[keys@[j]]);
                }
                assert(self@ =~= (StateModel { views: self@.views, ..mid }));
                assert(out@ =~= mid_out + keys@.take(i + 1).flat_map(acts));
                assert(clients@ =~= mid_clients + keys@.take(i + 1).flat_map(cls));
            }
            i += 1;
        }
        proof {
            assert(keys@.take(i as int) == keys@);
            all_dealt_with(self@.views, s.views, keys@, f);
            dealing_keeps_wf(mid, self@, f);
            assert(self@ =~= s.releasing_everything(owners@).0);
        }
        crate::pacing::unblock_all(&clients, out);
        assert(out@ =~= start + s.releasing_everything(owners@).1);
    }
}

} // verus!
