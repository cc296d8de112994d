//! What becomes of a frame: on its way to the screen, on it, and off it.
//!
//! The laws here speak of what is kept of a view and what is asked for, in
//! terms of what came in: the layers handed over, the shell's report, the time.

use vstd::prelude::*;

use crate::action::Action;
use crate::buffers::{BufferKey, IdsModel};
use crate::holds::HoldsModel;
use crate::pacing::{Loose, PacingModel, Timer};
use crate::state::{StateModel, ViewModel};
use crate::submit::{Fence, Layer};
use crate::timing::{FrameModel, Report, Taken};

verus! {

/// A frame reported shown takes it and every earlier one off the view, answers
/// the frame callbacks of what the view shows with the report's time in
/// milliseconds, and sets the clock by the report: never back, and by its
/// refresh where that is known. The client carries on where a frame covered
/// held it up, and the buffers of earlier frames go back.
pub proof fn a_report_takes_frames_off_the_view(s: StateModel, v: i32, report: Report, i: int)
    requires
        s.views.contains_key(v),
    ensures
        ({
            let view = s.views[v];
            let n = s.presenting(v, report).0;
            let acts = s.presenting(v, report).1;
            let after = n.views[v];
            &&& after.answer is None
            &&& after.frames.len() <= view.frames.len()
            &&& 0 <= i < after.frames.len() ==> after.frames[i] == view.frames[i
                + view.frames.len() - after.frames.len()]
            &&& after.frames.len() > 0 ==> after.frames[0].seq > report.seq
            &&& 0 <= i < view.frames.len() - after.frames.len() ==> view.frames[i].seq
                <= report.seq
            &&& after.seq == view.seq && after.toplevel == view.toplevel && after.suspended
                == view.suspended && after.size == view.size && after.dpr == view.dpr
            &&& after.holds == view.holds.shown(report.seq)
            &&& view.toplevel is Some ==> acts.contains(
                Action::FrameCallbacks {
                    view_id: v,
                    time_ms: ((report.ust_ns / 1_000_000) % 0x1_0000_0000) as u32,
                },
            )
            &&& 0 <= i < view.frames.len() - after.frames.len() && view.frames[i].barriers.len()
                > 0 && s.client_of(v) is Some ==> acts.contains(
                Action::Unblock(s.client_of(v)->0),
            )
        }),
{
    let view = s.views[v];
    let n = crate::timing::up_to(view.frames, report.seq);
    crate::timing::what_a_report_covers(view.frames, report.seq, i);
    let covered = view.frames.take(n);
    let freed = s.freed_client(v, crate::timing::any_barrier(covered)).map_values(
        |c: u64| Action::Unblock(c),
    );
    let drops = crate::holds::drops(
        view.holds.unfenced.filter(crate::holds::before_frame(report.seq)),
    );
    let told = crate::timing::reported(
        covered,
        crate::timing::shown_by(view.frames, report.seq),
        report.telling(),
    );
    let fc = Action::FrameCallbacks {
        view_id: v,
        time_ms: ((report.ust_ns / 1_000_000) % 0x1_0000_0000) as u32,
    };
    let calls = if view.toplevel is Some {
        seq![fc]
    } else {
        Seq::empty()
    };
    assert(s.presenting(v, report).1 == drops + told + calls + freed);
    if view.toplevel is Some {
        assert(calls[0] == fc);
        crate::maps::listed_by_either(drops + told, calls, fc);
        crate::maps::listed_by_either(drops + told + calls, freed, fc);
    }
    if 0 <= i < n && view.frames[i].barriers.len() > 0 && s.client_of(v) is Some {
        assert(covered[i].barriers.len() > 0);
        let u = Action::Unblock(s.client_of(v)->0);
        assert(freed[0] == u);
        crate::maps::listed_by_either(drops + told + calls, freed, u);
    }
}

/// The clock follows the reports: it takes on a later time and a refresh that
/// is known, whatever view the report is of, and nothing else changes it.
pub proof fn the_clock_follows_the_reports(s: StateModel, v: i32, report: Report)
    ensures
        ({
            let clock = s.presenting(v, report).0.pacing.clock;
            &&& report.ust_ns > s.pacing.clock.ust_ns ==> clock.ust_ns == report.ust_ns
            &&& report.ust_ns <= s.pacing.clock.ust_ns ==> clock.ust_ns == s.pacing.clock.ust_ns
            &&& report.refresh_ns > 0 ==> clock.refresh_ns == report.refresh_ns
            &&& report.refresh_ns == 0 ==> clock.refresh_ns == s.pacing.clock.refresh_ns
        }),
        s.presenting(v, report).0.pacing.loose == s.pacing.loose,
        s.presenting(v, report).0.pacing.timed == s.pacing.timed,
        s.presenting(v, report).0.pacing.tick == s.pacing.tick,
        s.presenting(v, report).0.toplevels == s.toplevels,
        s.presenting(v, report).0.buffers == s.buffers,
        forall|w: i32|
            w != v && #[trigger] s.views.contains_key(w) ==> s.presenting(v, report).0.views[w]
                == s.views[w],
        !s.views.contains_key(v) ==> s.presenting(v, report).1.len() == 0,
{
}

/// A clock is asked for where none is coming as soon, and then for that time.
pub proof fn the_clock_runs_at_the_soonest_time(p: PacingModel, at: u64)
    ensures
        p.scheduled(at).tick is Some,
        p.scheduled(at).tick->0 <= at,
        p.tick is Some && p.tick->0 <= at ==> p.scheduled(at).tick == p.tick && p.scheduling(
            at,
        ).len() == 0,
        !(p.tick is Some && p.tick->0 <= at) ==> p.scheduled(at).tick == Some(at)
            && p.scheduling(at) == seq![Action::Tick(at)],
        p.scheduled(at).clock == p.clock,
        p.scheduled(at).loose == p.loose,
        p.scheduled(at).timed == p.timed,
{
}

/// A frame that the shell took is the view's newest: numbered one higher than
/// the one before, submitted now, showing each layer at its generation, with
/// the barriers that came with it. Of the feedback, what it shows waits for its
/// report and the rest is discarded. Its frame callbacks are answered a quarter
/// of a second from now, unless they were to be sooner.
pub proof fn an_accepted_frame_is_the_newest(
    s: StateModel,
    v: i32,
    layers: Seq<Layer>,
    fences: Seq<Fence>,
    taken: Taken,
    now: u64,
    i: int,
)
    requires
        s.views.contains_key(v),
        s.views[v].seq < u64::MAX,
        s.views[v].frames.len() <= 16,
        now <= u64::MAX - 250_000_000,
    ensures
        ({
            let view = s.views[v];
            let step = s.accepting(v, layers, fences, taken, now);
            let after = step.0.views[v];
            let frame = after.frames.last();
            &&& after.seq == view.seq + 1
            &&& !after.cleared
            &&& after.toplevel == view.toplevel && after.suspended == view.suspended
            &&& after.size == view.size && after.dpr == view.dpr
            &&& after.frames.len() > 0
            &&& frame.seq == view.seq + 1
            &&& frame.submitted_ns == now
            &&& frame.shown.len() == layers.len()
            &&& 0 <= i < layers.len() ==> frame.shown[i] == (
                layers[i].layer_id,
                layers[i].generation,
            )
            &&& frame.barriers == taken.barriers@
            &&& 0 <= i < taken.feedback@.len() ==> {
                let f = taken.feedback@[i];
                if frame.shown.contains((f.layer_id, f.generation)) {
                    frame.feedback.contains(f)
                } else {
                    step.1.contains(Action::Discarded(f.callback))
                }
            }
            &&& view.answer is Some ==> after.answer == view.answer
            &&& view.answer is None ==> after.answer == Some((now + 250_000_000) as u64)
        }),
{
    let view = s.views[v];
    let frame = s.frame_of(v, layers, taken, now);
    let step = s.accepting(v, layers, fences, taken, now);
    crate::timing::the_last_frames_are_kept(view.frames, frame);
    assert(step.0.views[v].frames == crate::timing::with_frame(view.frames, frame));
    if 0 <= i < taken.feedback@.len() {
        let told = report_of_nothing();
        crate::timing::each_feedback_hears_of_its_content(
            taken.feedback@,
            frame.shown,
            told,
            i,
        );
        let f = taken.feedback@[i];
        if !frame.shown.contains((f.layer_id, f.generation)) {
            let rest = crate::timing::unseen(taken.feedback@, frame.shown);
            let k = choose|k: int| 0 <= k < rest.len() && rest[k] == f;
            let d = crate::timing::discards(rest);
            let a = Action::Discarded(f.callback);
            assert(d[k] == a);
            let held = crate::submit::holding(view.holds, layers, fences, frame.seq).1;
            crate::maps::listed_by_either(held, d, a);
            let head = held + d;
            let tail = step.1.skip(head.len() as int);
            assert(step.1 =~= head + tail);
            crate::maps::listed_by_either(head, tail, a);
        }
    }
}

spec fn report_of_nothing() -> crate::timing::Told {
    crate::timing::Told { time_ns: 0, refresh_ns: None, msc: 0, flags: 0 }
}

/// The buffer of each layer of a frame that the shell took is held: with a
/// fence until that signals; without one, as long as there is room, for that
/// frame; and one whose fence cannot be watched goes back at once.
pub proof fn an_accepted_layer_is_held(
    holds: HoldsModel,
    layers: Seq<Layer>,
    fences: Seq<Fence>,
    seq: u64,
    i: int,
)
    requires
        0 <= i < layers.len(),
        layers.len() <= fences.len(),
    ensures
        ({
            let after = crate::submit::holding(holds, layers, fences, seq);
            match fences[i] {
                Fence::Watched(k) => after.0.fenced.contains((k, layers[i].key)),
                Fence::Absent => holds.unfenced.len() + layers.len() <= 64
                    ==> after.0.unfenced.contains((seq, layers[i].key)),
                Fence::Unwatched => after.1.contains(
                    match layers[i].key {
                        BufferKey::Client(b) => Action::ReleaseBuffer(b),
                        BufferKey::Staged(uid) => Action::ReleaseSlot(uid),
                    },
                ),
            }
        }),
        crate::submit::holding(holds, layers, fences, seq).0.unfenced.len()
            <= holds.unfenced.len() + layers.len(),
    decreases layers.len(),
{
    let d = layers.drop_last();
    let last = layers.len() - 1;
    let key = layers[last].key;
    let before = crate::submit::holding(holds, d, fences, seq);
    if d.len() > 0 {
        an_accepted_layer_is_held(
            holds,
            d,
            fences,
            seq,
            if i < last {
                i
            } else {
                0
            },
        );
    } else {
        assert(before.0 == holds);
    }
    let h = (seq, layers[i].key);
    before.0.unfenced.lemma_filter_len(crate::holds::not_on(key));
    crate::holds::a_buffer_is_held_for_its_last_frame(before.0, seq, key, h);
    let after = crate::submit::holding(holds, layers, fences, seq);
    assert(before.0.with_unfenced(seq, key).unfenced.contains((seq, key))) by {
        let u = before.0.with_unfenced(seq, key).unfenced;
        assert(u[u.len() - 1] == (seq, key));
    }
    match fences[last] {
        Fence::Absent => {
            if i < last && fences[i] is Unwatched {
                crate::maps::listed_by_either(
                    before.1,
                    before.0.unfenced_drops(seq, key),
                    crate::holds::dropped(layers[i].key),
                );
            }
        },
        Fence::Watched(k) => {
            if fences[i] is Watched {
                crate::holds::a_fenced_buffer_is_held_besides(
                    before.0,
                    k,
                    key,
                    (fences[i]->Watched_0, layers[i].key),
                );
            }
        },
        Fence::Unwatched => {
            let a = crate::holds::dropped(layers[i].key);
            if i == last {
                assert(after.1[before.1.len() as int] == a);
            } else if fences[i] is Unwatched {
                let j = choose|j: int| 0 <= j < before.1.len() && before.1[j] == a;
                assert(after.1[j] == a);
            }
        },
    }
}

/// What a view that the shell took a frame of holds is what its layers' fences
/// say.
pub proof fn an_accepted_frame_holds_each_layer(
    s: StateModel,
    v: i32,
    layers: Seq<Layer>,
    fences: Seq<Fence>,
    taken: Taken,
    now: u64,
    i: int,
)
    requires
        s.views.contains_key(v),
        s.views[v].seq < u64::MAX,
        0 <= i < layers.len(),
        layers.len() <= fences.len(),
    ensures
        ({
            let step = s.accepting(v, layers, fences, taken, now);
            let holds = step.0.views[v].holds;
            match fences[i] {
                Fence::Watched(k) => holds.fenced.contains((k, layers[i].key)),
                Fence::Absent => s.views[v].holds.unfenced.len() + layers.len() <= 64
                    ==> holds.unfenced.contains(((s.views[v].seq + 1) as u64, layers[i].key)),
                Fence::Unwatched => step.1.contains(
                    match layers[i].key {
                        BufferKey::Client(b) => Action::ReleaseBuffer(b),
                        BufferKey::Staged(uid) => Action::ReleaseSlot(uid),
                    },
                ),
            }
        }),
{
    let view = s.views[v];
    let step = s.accepting(v, layers, fences, taken, now);
    let seq = (view.seq + 1) as u64;
    an_accepted_layer_is_held(view.holds, layers, fences, seq, i);
    let held = crate::submit::holding(view.holds, layers, fences, seq);
    assert(step.0.views[v].holds == held.0);
    if fences[i] is Unwatched {
        let a = crate::holds::dropped(layers[i].key);
        let tail = step.1.skip(held.1.len() as int);
        assert(step.1 =~= held.1 + tail);
        crate::maps::listed_by_either(held.1, tail, a);
    }
}

/// Of a frame that was not taken every layer's buffer goes back and every
/// feedback is discarded; the view keeps its number, its frames and its holds,
/// and answers its frame callbacks at the next refresh, unless sooner.
pub proof fn a_refused_frame_leaves_nothing_behind(
    s: StateModel,
    v: i32,
    layers: Seq<Layer>,
    taken: Taken,
    now: u64,
    i: int,
)
    requires
        s.views.contains_key(v),
    ensures
        ({
            let view = s.views[v];
            let step = s.refusing(v, layers, taken, now);
            let after = step.0.views[v];
            let refresh = s.pacing.clock.vblank_after(now as int) as u64;
            &&& after.seq == view.seq && after.frames == view.frames && after.holds == view.holds
            &&& after.toplevel == view.toplevel && after.suspended == view.suspended
                && after.cleared == view.cleared
            &&& after.answer is Some
            &&& view.answer is None ==> after.answer == Some(refresh)
            &&& view.answer is Some ==> after.answer->0 <= refresh && after.answer->0
                <= view.answer->0 && (after.answer->0 == refresh || after.answer == view.answer)
            &&& 0 <= i < layers.len() ==> step.1.contains(
                match layers[i].key {
                    BufferKey::Client(b) => Action::ReleaseBuffer(b),
                    BufferKey::Staged(uid) => Action::ReleaseSlot(uid),
                },
            )
            &&& 0 <= i < taken.feedback@.len() ==> step.1.contains(
                Action::Discarded(taken.feedback@[i].callback),
            )
            &&& !view.suspended ==> step.0.pacing.tick is Some && step.0.pacing.tick->0
                <= after.answer->0
        }),
{
    let step = s.refusing(v, layers, taken, now);
    let drops = crate::submit::layer_drops(layers);
    let d = crate::timing::discards(taken.feedback@);
    let head = drops + d;
    let tail = step.1.skip(head.len() as int);
    assert(step.1 =~= head + tail);
    if 0 <= i < layers.len() {
        let a = crate::holds::dropped(layers[i].key);
        assert(drops[i] == a);
        crate::maps::listed_by_either(drops, d, a);
        crate::maps::listed_by_either(head, tail, a);
    }
    if 0 <= i < taken.feedback@.len() {
        let a = Action::Discarded(taken.feedback@[i].callback);
        assert(d[i] == a);
        crate::maps::listed_by_either(drops, d, a);
        crate::maps::listed_by_either(head, tail, a);
    }
}

/// Barriers of an update that no view shows clear at the next refresh, where
/// there is room for them, and the clock runs for them; those of a client that
/// is gone clear at once.
pub proof fn barriers_nobody_shows_clear_at_the_next_refresh(
    p: PacingModel,
    client: Option<u64>,
    barriers: Seq<u64>,
    now: u64,
    i: int,
)
    requires
        0 <= i < barriers.len(),
    ensures
        ({
            let after = p.holding_loose(client, barriers, now);
            let due_ns = p.clock.vblank_after(now as int) as u64;
            &&& client is None ==> after == p && p.loose_actions(client, barriers, now).contains(
                Action::Cleared(barriers[i]),
            )
            &&& client is Some ==> after.tick is Some && after.tick->0 <= due_ns
            &&& client is Some && p.loose.len() + barriers.len() <= 256 ==> after.loose.contains(
                Loose { barrier: barriers[i], client: client->0, due_ns },
            )
            &&& client is Some ==> after.clock == p.clock && after.timed == p.timed
            &&& p.loose.len() <= 256 ==> after.loose.len() <= 256
        }),
{
    let due = p.refresh_after(now);
    if client is None {
        let c = crate::timing::clears(barriers);
        assert(c[i] == Action::Cleared(barriers[i]));
    } else {
        let more = crate::pacing::loosened(barriers, client->0, due);
        let all = p.loose + more;
        let l = Loose { barrier: barriers[i], client: client->0, due_ns: due };
        assert(more[i] == l);
        if p.loose.len() + barriers.len() <= 256 {
            assert(all.skip(0) =~= all);
            assert(all[p.loose.len() + i] == l);
        }
    }
}

/// A view leaving or re-entering the scene is noted as such, and keeps all else
/// but when its frame callbacks are answered: back on screen they have a
/// quarter of a second again. Leaving it closes its popups, and what its frames
/// held back is looked at again at the next refresh.
pub proof fn a_view_leaves_and_comes_back(s: StateModel, v: i32, suspended: bool, now: u64)
    requires
        s.views.contains_key(v),
        now <= u64::MAX - 250_000_000,
    ensures
        ({
            let view = s.views[v];
            let step = s.suspending(v, suspended, now);
            let after = step.0.views[v];
            &&& after.suspended == suspended
            &&& after.frames == view.frames && after.holds == view.holds && after.seq == view.seq
                && after.toplevel == view.toplevel && after.size == view.size && after.dpr
                == view.dpr
            &&& (after.answer is Some <==> view.answer is Some)
            &&& view.suspended && !suspended && view.answer is Some ==> after.answer == Some(
                (now + 250_000_000) as u64,
            )
            &&& !(view.suspended && !suspended) ==> after.answer == view.answer
            &&& suspended && view.toplevel is Some <==> step.1.contains(Action::DismissPopups(v))
            &&& suspended && (exists|i: int|
                0 <= i < view.frames.len() && (#[trigger] view.frames[i]).barriers.len() > 0)
                ==> step.0.pacing.tick is Some && step.0.pacing.tick->0
                <= s.pacing.clock.vblank_after(now as int) as u64
            &&& !suspended && after.answer is Some ==> step.0.pacing.tick is Some
                && step.0.pacing.tick->0 <= after.answer->0
        }),
{
    let view = s.views[v];
    let step = s.suspending(v, suspended, now);
    let first = if suspended && view.toplevel is Some {
        seq![Action::DismissPopups(v)]
    } else {
        Seq::empty()
    };
    let tail = step.1.skip(first.len() as int);
    assert(step.1 =~= first + tail);
    if suspended && view.toplevel is Some {
        assert(step.1[0] == Action::DismissPopups(v));
    } else if step.1.contains(Action::DismissPopups(v)) {
        let i = choose|i: int| 0 <= i < step.1.len() && step.1[i] == Action::DismissPopups(v);
        assert(step.1[i] is Tick);
    }
    crate::progress::a_barrier_goes_stale(view.frames);
}

/// A tick at `now` answers the frame callbacks of each view on screen that are
/// due, with that time in milliseconds, and lets go of those answers; off
/// screen they are kept. Nothing else of a view changes but barriers.
pub proof fn a_tick_answers_what_is_due(s: StateModel, now: u64, timers: Seq<Timer>, v: i32)
    requires
        s.views.contains_key(v),
        s.views.dom().finite(),
    ensures
        ({
            let view = s.views[v];
            let step = s.ticking(now, timers);
            let after = step.0.views[v];
            let due = !view.suspended && view.answer is Some && view.answer->0 <= now;
            &&& step.0.views.dom() == s.views.dom()
            &&& due ==> after.answer is None && step.1.contains(
                Action::FrameCallbacks {
                    view_id: v,
                    time_ms: ((now / 1_000_000) % 0x1_0000_0000) as u32,
                },
            )
            &&& !due ==> after.answer == view.answer
            &&& after.seq == view.seq && after.holds == view.holds && after.toplevel
                == view.toplevel && after.suspended == view.suspended && after.size == view.size
                && after.dpr == view.dpr && after.frames.len() == view.frames.len()
            &&& step.0.toplevels == s.toplevels && step.0.buffers == s.buffers
                && step.0.pacing.clock == s.pacing.clock
        }),
{
    let view = s.views[v];
    let step = s.ticking(now, timers);
    if !view.suspended && view.answer is Some && view.answer->0 <= now {
        let fc = Action::FrameCallbacks {
            view_id: v,
            time_ms: ((now / 1_000_000) % 0x1_0000_0000) as u32,
        };
        let acts = crate::reports::tick_actions(v, view, now);
        crate::progress::callbacks_are_answered_when_due(v, view, now);
        let ids = crate::maps::listed(s.views.dom());
        crate::maps::every_set_can_be_listed(s.views.dom());
        assert(s.views.dom().contains(v));
        assert(ids.contains(v));
        let i = choose|i: int| 0 <= i < ids.len() && ids[i] == v;
        assert(s.each_tick(now)(ids[i]).contains(fc));
        crate::maps::listed_by_a_piece(ids, s.each_tick(now), fc);
        let first = crate::pacing::loose_clears(
            s.pacing.loose.filter(crate::pacing::due_by(now)),
        );
        let second = ids.flat_map(s.each_tick(now));
        crate::maps::listed_by_either(first, second, fc);
        let head = first + second;
        let tail = step.1.skip(head.len() as int);
        assert(step.1 =~= head + tail);
        crate::maps::listed_by_either(head, tail, fc);
    }
}

/// A tick clears the barriers of updates nobody shows that are due, and only
/// those; the clients they held up carry on.
pub proof fn a_tick_clears_due_barriers(s: StateModel, now: u64, timers: Seq<Timer>, l: Loose)
    requires
        s.pacing.loose.contains(l),
    ensures
        ({
            let step = s.ticking(now, timers);
            &&& l.due_ns <= now ==> step.1.contains(Action::Cleared(l.barrier)) && step.1.contains(
                Action::Unblock(l.client),
            )
            &&& step.0.pacing.loose.contains(l) <==> l.due_ns > now
        }),
{
    let step = s.ticking(now, timers);
    let ids = crate::maps::listed(s.views.dom());
    crate::maps::what_a_filter_keeps(s.pacing.loose, crate::pacing::due_by(now), l);
    crate::maps::what_a_filter_keeps(s.pacing.loose, crate::pacing::due_after(now), l);
    if l.due_ns <= now {
        let due = s.pacing.loose.filter(crate::pacing::due_by(now));
        let i = choose|i: int| 0 <= i < due.len() && due[i] == l;
        let first = crate::pacing::loose_clears(due);
        let a = Action::Cleared(l.barrier);
        assert(first[i] == a);
        let tail = step.1.skip(first.len() as int);
        assert(step.1 =~= first + tail);
        crate::maps::listed_by_either(first, tail, a);
        let t = timers.flat_map(crate::pacing::timer_client());
        let c = crate::pacing::loose_clients(due);
        let e = ids.flat_map(s.each_client(now));
        assert(c[i] == l.client);
        crate::maps::listed_by_either(t, c, l.client);
        crate::maps::listed_by_either(t + c, e, l.client);
        let clients = t + c + e;
        each_carries_on(clients, l.client);
        let u = crate::pacing::unblocks(clients);
        let second = ids.flat_map(s.each_tick(now));
        let b = Action::Unblock(l.client);
        crate::maps::listed_by_either(first + second, u, b);
        let head = first + second + u;
        let rest = step.1.skip(head.len() as int);
        assert(step.1 =~= head + rest);
        crate::maps::listed_by_either(head, rest, b);
    }
}

/// Each client named carries on, and no other; none is told twice.
pub proof fn each_carries_on(clients: Seq<u64>, c: u64)
    ensures
        crate::pacing::unblocks(clients).contains(Action::Unblock(c)) <==> clients.contains(c),
        crate::pacing::once_each(clients).contains(c) <==> clients.contains(c),
        crate::pacing::once_each(clients).no_duplicates(),
    decreases clients.len(),
{
    let once = crate::pacing::once_each(clients);
    if clients.len() > 0 {
        let d = clients.drop_last();
        each_carries_on(d, c);
        each_carries_on(d, clients.last());
        let rest = crate::pacing::once_each(d);
        assert(clients =~= d + seq![clients.last()]);
        crate::maps::listed_by_either(d, seq![clients.last()], c);
        assert(seq![clients.last()][0] == clients.last());
        assert(seq![clients.last()].contains(clients.last()));
        if seq![clients.last()].contains(c) {
            assert(c == clients.last());
        }
        if !rest.contains(clients.last()) {
            assert(once =~= rest + seq![clients.last()]);
            crate::maps::listed_by_either(rest, seq![clients.last()], c);
        }
    }
    let u = crate::pacing::unblocks(clients);
    if once.contains(c) {
        let i = choose|i: int| 0 <= i < once.len() && once[i] == c;
        assert(u[i] == Action::Unblock(c));
    }
    if u.contains(Action::Unblock(c)) {
        let i = choose|i: int| 0 <= i < u.len() && u[i] == Action::Unblock(c);
        assert(once[i] == c);
    }
}

/// Each layer's buffer gets an id, the one the shell knows it by from then on,
/// and is noted in the view; layers that show one buffer have one id.
pub proof fn each_layer_is_numbered(ids: IdsModel, v: i32, layers: Seq<Layer>, i: int, j: int)
    requires
        0 <= i < layers.len(),
        0 <= j < layers.len(),
    ensures
        ({
            let n = crate::submit::numbering(ids, v, layers);
            &&& n.1.len() == layers.len()
            &&& n.0.by_buffer.contains_key(layers[i].key)
            &&& n.1[i] == n.0.by_buffer[layers[i].key].id
            &&& n.0.by_buffer[layers[i].key].views.contains(v)
            &&& layers[i].key == layers[j].key ==> n.1[i] == n.1[j]
            &&& ids.by_buffer.contains_key(layers[i].key) ==> n.1[i]
                == ids.by_buffer[layers[i].key].id
        }),
    decreases layers.len(),
{
    let d = layers.drop_last();
    let last = layers.len() - 1;
    let before = crate::submit::numbering(ids, v, d);
    let key = layers[last].key;
    if d.len() > 0 {
        each_layer_is_numbered(
            ids,
            v,
            d,
            if i < last {
                i
            } else {
                0
            },
            if j < last {
                j
            } else {
                0
            },
        );
        if j < last {
            each_layer_is_numbered(ids, v, d, j, j);
        }
    }
    if ids.by_buffer.contains_key(key) {
        kept_in_numbering(ids, v, d, key);
    }
    crate::buffers::an_id_is_stable(before.0, key, key, v);
    crate::buffers::an_id_is_stable(before.0, layers[i].key, key, v);
    crate::buffers::an_id_is_stable(before.0, layers[j].key, key, v);
    crate::buffers::a_buffer_is_noted_where_it_was_shown(before.0, key, layers[i].key, v, v);
}

proof fn kept_in_numbering(ids: IdsModel, v: i32, layers: Seq<Layer>, key: BufferKey)
    requires
        ids.by_buffer.contains_key(key),
    ensures
        crate::submit::numbering(ids, v, layers).0.by_buffer.contains_key(key),
        crate::submit::numbering(ids, v, layers).0.by_buffer[key].id == ids.by_buffer[key].id,
    decreases layers.len(),
{
    if layers.len() > 0 {
        kept_in_numbering(ids, v, layers.drop_last(), key);
    }
}

/// The shell is handed the bottom 32 layers of a scene at most, and the buffers
/// numbered are those described and the first that could not be.
pub proof fn which_layers_are_handed_over(layers: Seq<Layer>, described: int)
    requires
        0 <= described,
    ensures
        layers.len() <= 32 ==> crate::submit::taken_layers(layers) == layers,
        layers.len() > 32 ==> crate::submit::taken_layers(layers) == layers.subrange(0, 32),
        described >= layers.len() ==> crate::submit::numbered_layers(layers, described) == layers,
        described < layers.len() ==> crate::submit::numbered_layers(layers, described)
            == layers.subrange(0, described + 1),
{
}

/// A buffer that is gone is dropped by each view it was shown in that is still
/// there, under its id, and by no other; it has no id from then on.
pub proof fn a_buffer_is_retired_where_it_was_shown(s: StateModel, key: BufferKey, v: i32, id: u32)
    ensures
        !s.retiring(key).0.buffers.by_buffer.contains_key(key),
        s.retiring(key).1.contains(Action::Retire { view_id: v, buffer_id: id })
            <==> s.buffers.by_buffer.contains_key(key) && s.buffers.by_buffer[key].id == id
            && s.buffers.by_buffer[key].views.contains(v) && s.views.contains_key(v),
        s.retiring(key).0.views == s.views,
        s.retiring(key).0.toplevels == s.toplevels,
        s.retiring(key).0.pacing == s.pacing,
{
    if s.buffers.by_buffer.contains_key(key) {
        let e = s.buffers.by_buffer[key];
        views_are_told(s, e.views, e.id, v, id);
    }
}

proof fn views_are_told(s: StateModel, views: Seq<i32>, buffer_id: u32, v: i32, id: u32)
    ensures
        s.retirements(views, buffer_id).contains(Action::Retire { view_id: v, buffer_id: id })
            <==> id == buffer_id && views.contains(v) && s.views.contains_key(v),
    decreases views.len(),
{
    if views.len() > 0 {
        let d = views.drop_last();
        views_are_told(s, d, buffer_id, v, id);
        let a = Action::Retire { view_id: v, buffer_id: id };
        let before = s.retirements(d, buffer_id);
        let more = seq![Action::Retire { view_id: views.last(), buffer_id }];
        crate::maps::listed_by_either(before, more, a);
        assert(views =~= d + seq![views.last()]);
        crate::maps::listed_by_either(d, seq![views.last()], v);
        assert(seq![views.last()][0] == views.last());
        if seq![views.last()].contains(v) {
            assert(v == views.last());
        }
        if v == views.last() && id == buffer_id {
            assert(more[0] == a);
        }
        if more.contains(a) {
            assert(more[0] == a);
        }
        assert(before.push(more[0]) =~= before + more);
    }
}

/// A timed surface is watched on exactly while it is there and has an update
/// waiting, and its client carries on where updates of it were released.
pub proof fn which_surfaces_stay_timed(timed: Seq<u64>, timers: Seq<Timer>, surface: u64)
    requires
        timers.len() == timed.len(),
    ensures
        crate::pacing::still_timed(timed, timers).contains(surface) <==> exists|i: int|
            0 <= i < timed.len() && #[trigger] timed[i] == surface && timers[i].alive
                && timers[i].pending is Some,
{
    stays(timed, timers, surface);
}

proof fn stays(timed: Seq<u64>, timers: Seq<Timer>, surface: u64)
    requires
        timers.len() >= timed.len(),
    ensures
        crate::pacing::still_timed(timed, timers).contains(surface) <==> exists|i: int|
            0 <= i < timed.len() && #[trigger] timed[i] == surface && timers[i].alive
                && timers[i].pending is Some,
    decreases timed.len(),
{
    if timed.len() > 0 {
        let d = timed.drop_last();
        let last = timed.len() - 1;
        stays(d, timers, surface);
        let rest = crate::pacing::still_timed(d, timers);
        let t = timers[last];
        if t.alive && t.pending is Some {
            assert(rest.push(timed.last()) =~= rest + seq![timed.last()]);
            crate::maps::listed_by_either(rest, seq![timed.last()], surface);
            assert(seq![timed.last()][0] == timed.last());
            assert(seq![timed.last()].contains(timed.last()));
        }
        if rest.contains(surface) {
            let i = choose|i: int|
                0 <= i < d.len() && #[trigger] d[i] == surface && timers[i].alive
                    && timers[i].pending is Some;
            assert(timed[i] == surface);
        }
        if t.alive && t.pending is Some && timed.last() == surface {
            assert(timed[last] == surface);
        }
        if exists|i: int|
            0 <= i < timed.len() && #[trigger] timed[i] == surface && timers[i].alive
                && timers[i].pending is Some {
            let i = choose|i: int|
                0 <= i < timed.len() && #[trigger] timed[i] == surface && timers[i].alive
                    && timers[i].pending is Some;
            if i < last {
                assert(d[i] == surface);
            }
        }
    }
}

/// Where the clock cannot run everything that waits on it is let go: every
/// loose barrier clears, no frame holds one, no surface is timed, and each
/// client that waited carries on.
pub proof fn nothing_waits_on_a_clock_that_cannot_run(
    s: StateModel,
    owners: Seq<u64>,
    v: i32,
    i: int,
)
    ensures
        ({
            let step = s.releasing_everything(owners);
            &&& step.0.pacing.loose.len() == 0 && step.0.pacing.timed.len() == 0
                && step.0.pacing.tick is None && step.0.pacing.clock == s.pacing.clock
            &&& s.views.contains_key(v) && 0 <= i < s.views[v].frames.len()
                && s.views[v].frames[i].submitted_ns < u64::MAX
                ==> step.0.views[v].frames[i].barriers.len() == 0
                && step.0.views[v].frames[i].feedback == s.views[v].frames[i].feedback
            &&& 0 <= i < s.pacing.loose.len() ==> step.1.contains(
                Action::Cleared(s.pacing.loose[i].barrier),
            ) && step.1.contains(Action::Unblock(s.pacing.loose[i].client))
            &&& 0 <= i < owners.len() ==> step.1.contains(Action::Unblock(owners[i]))
        }),
{
    let step = s.releasing_everything(owners);
    let ids = crate::maps::listed(s.views.dom());
    let first = crate::pacing::loose_clears(s.pacing.loose);
    let second = ids.flat_map(s.each_release());
    let a = crate::pacing::loose_clients(s.pacing.loose);
    let c = ids.flat_map(s.each_released_client());
    let third = crate::pacing::unblocks(a + owners + c);
    assert(step.1 == first + second + third);
    if 0 <= i < s.pacing.loose.len() {
        let l = s.pacing.loose[i];
        let x = Action::Cleared(l.barrier);
        assert(first[i] == x);
        crate::maps::listed_by_either(first, second, x);
        crate::maps::listed_by_either(first + second, third, x);
        assert(a[i] == l.client);
        crate::maps::listed_by_either(a, owners, l.client);
        crate::maps::listed_by_either(a + owners, c, l.client);
        each_carries_on(a + owners + c, l.client);
        crate::maps::listed_by_either(first + second, third, Action::Unblock(l.client));
    }
    if 0 <= i < owners.len() {
        assert(owners.contains(owners[i]));
        crate::maps::listed_by_either(a, owners, owners[i]);
        crate::maps::listed_by_either(a + owners, c, owners[i]);
        each_carries_on(a + owners + c, owners[i]);
        crate::maps::listed_by_either(first + second, third, Action::Unblock(owners[i]));
    }
}

/// A staging slot is not filled while any view holds it.
pub proof fn a_slot_is_in_use_while_a_view_holds_it(s: StateModel, uid: u64, v: i32, n: u64)
    requires
        s.views.contains_key(v),
    ensures
        s.views[v].holds.fenced.contains((n, BufferKey::Staged(uid))) ==> s.slot_in_use(uid),
        s.views[v].holds.unfenced.contains((n, BufferKey::Staged(uid))) ==> s.slot_in_use(uid),
        (forall|w: i32| #[trigger]
            s.views.contains_key(w) ==> !s.views[w].holds.holds_slot(uid)) ==> !s.slot_in_use(uid),
{
    crate::holds::when_a_slot_is_in_use(s.views[v].holds, uid, n);
}

/// Whether a client of view `v` is told to carry on by a tick at `now`: one of
/// its frames holds a barrier, and the view is off screen or the frame went
/// unreported for more than a quarter of a second.
pub open spec fn held_up(view: ViewModel, now: u64) -> bool {
    exists|i: int|
        0 <= i < view.frames.len() && (#[trigger] view.frames[i]).barriers.len() > 0 && (
        if view.suspended {
            view.frames[i].submitted_ns < u64::MAX
        } else {
            view.frames[i].submitted_ns + 250_000_000 < now
        })
}

/// A tick has a client carry on exactly where it released something that held
/// the client up: an update that was due, a barrier nobody shows that was due,
/// or barriers of a frame off screen or unreported for too long.
pub proof fn whom_a_tick_lets_carry_on(s: StateModel, now: u64, timers: Seq<Timer>, c: u64)
    requires
        s.views.dom().finite(),
    ensures
        s.ticking(now, timers).1.contains(Action::Unblock(c)) <==> {
            ||| exists|i: int|
                0 <= i < timers.len() && (#[trigger] timers[i]).alive && timers[i].released
                    && timers[i].client == Some(c)
            ||| exists|i: int|
                0 <= i < s.pacing.loose.len() && (#[trigger] s.pacing.loose[i]).due_ns <= now
                    && s.pacing.loose[i].client == c
            ||| exists|v: i32| #[trigger]
                s.views.contains_key(v) && s.client_of(v) == Some(c) && held_up(s.views[v], now)
        },
{
    let acts = s.ticking(now, timers).1;
    let b = Action::Unblock(c);
    let ids = crate::maps::listed(s.views.dom());
    crate::maps::every_set_can_be_listed(s.views.dom());
    let due = s.pacing.loose.filter(crate::pacing::due_by(now));
    let first = crate::pacing::loose_clears(due);
    let second = ids.flat_map(s.each_tick(now));
    let t = timers.flat_map(crate::pacing::timer_client());
    let l = crate::pacing::loose_clients(due);
    let e = ids.flat_map(s.each_client(now));
    let clients = t + l + e;
    let third = crate::pacing::unblocks(clients);
    let head = first + second + third;
    let rest = acts.skip(head.len() as int);
    assert(acts =~= head + rest);
    crate::maps::listed_by_either(head, rest, b);
    crate::maps::listed_by_either(first + second, third, b);
    crate::maps::listed_by_either(first, second, b);
    if first.contains(b) {
        let i = choose|i: int| 0 <= i < first.len() && first[i] == b;
        assert(first[i] is Cleared);
    }
    if rest.contains(b) {
        let i = choose|i: int| 0 <= i < rest.len() && rest[i] == b;
        assert(rest[i] is Tick);
    }
    crate::maps::listed_by_a_piece(ids, s.each_tick(now), b);
    if second.contains(b) {
        let i = choose|i: int|
            0 <= i < ids.len() && s.each_tick(now)(#[trigger] ids[i]).contains(b);
        let view = s.views[ids[i]];
        let clears = crate::timing::clears_before(
            view.frames,
            crate::reports::release_limit(view, now),
        );
        crate::progress::only_clears(
            view.frames,
            crate::reports::release_limit(view, now),
        );
        let whole = crate::reports::tick_actions(ids[i], view, now);
        let k = choose|k: int| 0 <= k < whole.len() && whole[k] == b;
        if k < clears.len() {
            assert(clears[k] is Cleared);
        } else {
            assert(whole[k] is FrameCallbacks);
        }
    }
    each_carries_on(clients, c);
    crate::maps::listed_by_either(t + l, e, c);
    crate::maps::listed_by_either(t, l, c);
    crate::maps::listed_by_a_piece(timers, crate::pacing::timer_client(), c);
    assert forall|i: int| 0 <= i < timers.len() implies (crate::pacing::timer_client()(
        #[trigger] timers[i],
    ).contains(c) <==> timers[i].alive && timers[i].released && timers[i].client == Some(c)) by {
        let got = crate::pacing::timer_client()(timers[i]);
        if timers[i].alive && timers[i].released && timers[i].client is Some {
            assert(got[0] == timers[i].client->0);
        }
    }
    if t.contains(c) {
        let i = choose|i: int|
            0 <= i < timers.len() && crate::pacing::timer_client()(#[trigger] timers[i]).contains(
                c,
            );
        assert(timers[i].alive && timers[i].released && timers[i].client == Some(c));
    }
    if exists|i: int|
        0 <= i < timers.len() && (#[trigger] timers[i]).alive && timers[i].released
            && timers[i].client == Some(c) {
        let i = choose|i: int|
            0 <= i < timers.len() && (#[trigger] timers[i]).alive && timers[i].released
                && timers[i].client == Some(c);
        assert(crate::pacing::timer_client()(timers[i]).contains(c));
    }
    if l.contains(c) {
        let i = choose|i: int| 0 <= i < l.len() && l[i] == c;
        crate::maps::what_a_filter_keeps(s.pacing.loose, crate::pacing::due_by(now), due[i]);
        assert(due.contains(due[i]));
        let k = choose|k: int| 0 <= k < s.pacing.loose.len() && s.pacing.loose[k] == due[i];
        assert(s.pacing.loose[k].due_ns <= now);
    }
    if exists|i: int|
        0 <= i < s.pacing.loose.len() && (#[trigger] s.pacing.loose[i]).due_ns <= now
            && s.pacing.loose[i].client == c {
        let i = choose|i: int|
            0 <= i < s.pacing.loose.len() && (#[trigger] s.pacing.loose[i]).due_ns <= now
                && s.pacing.loose[i].client == c;
        let x = s.pacing.loose[i];
        assert(s.pacing.loose.contains(x));
        crate::maps::what_a_filter_keeps(s.pacing.loose, crate::pacing::due_by(now), x);
        let k = choose|k: int| 0 <= k < due.len() && due[k] == x;
        assert(l[k] == c);
    }
    crate::maps::listed_by_a_piece(ids, s.each_client(now), c);
    assert forall|v: i32| #[trigger] s.views.contains_key(v) implies (s.each_client(now)(
        v,
    ).contains(c) <==> s.client_of(v) == Some(c) && held_up(s.views[v], now)) by {
        let view = s.views[v];
        let limit = crate::reports::release_limit(view, now);
        let any = crate::timing::any_barrier_before(view.frames, limit);
        if any {
            let i = choose|i: int|
                0 <= i < view.frames.len() && (#[trigger] view.frames[i]).barriers.len() > 0
                    && view.frames[i].submitted_ns < limit;
            assert(view.frames[i].barriers.len() > 0);
            assert(held_up(view, now));
        }
        if held_up(view, now) {
            let i = choose|i: int|
                0 <= i < view.frames.len() && (#[trigger] view.frames[i]).barriers.len() > 0 && (
                if view.suspended {
                    view.frames[i].submitted_ns < u64::MAX
                } else {
                    view.frames[i].submitted_ns + 250_000_000 < now
                });
            assert(view.frames[i].submitted_ns < limit);
        }
        let got = s.each_client(now)(v);
        if any && s.client_of(v) is Some {
            assert(got[0] == s.client_of(v)->0);
        }
    }
    if e.contains(c) {
        let i = choose|i: int|
            0 <= i < ids.len() && s.each_client(now)(#[trigger] ids[i]).contains(c);
        assert(ids.contains(ids[i]));
        assert(s.views.dom().contains(ids[i]));
        assert(s.views.contains_key(ids[i]));
    }
    if exists|v: i32| #[trigger]
        s.views.contains_key(v) && s.client_of(v) == Some(c) && held_up(s.views[v], now) {
        let v = choose|v: i32| #[trigger]
            s.views.contains_key(v) && s.client_of(v) == Some(c) && held_up(s.views[v], now);
        assert(s.views.dom().contains(v));
        assert(ids.contains(v));
        let i = choose|i: int| 0 <= i < ids.len() && ids[i] == v;
        assert(s.each_client(now)(ids[i]).contains(c));
    }
}

/// After a tick the clock runs again when something is next to be done, and no
/// sooner than a tenth of a millisecond from now: an update is to be applied,
/// a barrier nobody shows clears, a view on screen answers its frame callbacks,
/// or barriers of its frames go stale; off screen those are looked at with each
/// refresh. It does not run for anything else.
pub proof fn when_the_clock_runs_next(s: StateModel, now: u64, timers: Seq<Timer>)
    requires
        s.views.dom().finite(),
        now <= u64::MAX - 100_000,
    ensures
        ({
            let step = s.ticking(now, timers);
            let tick = step.0.pacing.tick;
            &&& tick is Some ==> tick->0 >= now + 100_000
            &&& forall|i: int|
                0 <= i < timers.len() && (#[trigger] timers[i]).alive && timers[i].pending is Some
                    ==> tick is Some && (tick->0 == now + 100_000 || tick->0
                    <= s.pacing.clock.release_for(timers[i].pending->0 as int) as u64)
            &&& forall|i: int|
                0 <= i < s.pacing.loose.len() && (#[trigger] s.pacing.loose[i]).due_ns > now
                    ==> tick is Some && (tick->0 == now + 100_000 || tick->0
                    <= s.pacing.loose[i].due_ns)
            &&& forall|v: i32| #[trigger]
                s.views.contains_key(v) && !s.views[v].suspended && s.views[v].answer is Some
                    && s.views[v].answer->0 > now ==> tick is Some && (tick->0 == now + 100_000
                    || tick->0 <= s.views[v].answer->0)
            &&& tick is Some && tick->0 > now + 100_000 ==> {
                ||| exists|i: int|
                    0 <= i < timers.len() && (#[trigger] timers[i]).alive
                        && timers[i].pending is Some && tick->0 == s.pacing.clock.release_for(
                        timers[i].pending->0 as int,
                    ) as u64
                ||| exists|i: int|
                    0 <= i < s.pacing.loose.len() && (#[trigger] s.pacing.loose[i]).due_ns == tick->0
                ||| exists|v: i32| #[trigger]
                    s.views.contains_key(v) && (if s.views[v].suspended {
                        tick->0 == s.pacing.clock.vblank_after(now as int) as u64
                    } else {
                        s.views[v].answer == tick || crate::timing::stale_at(
                            step.0.views[v].frames,
                        ) == tick
                    })
            }
        }),
{
    let step = s.ticking(now, timers);
    let tick = step.0.pacing.tick;
    let ids = crate::maps::listed(s.views.dom());
    crate::maps::every_set_can_be_listed(s.views.dom());
    let kept = s.pacing.loose.filter(crate::pacing::due_after(now));
    let tw = crate::pacing::timer_wake(s.pacing.clock);
    let lw = crate::pacing::loose_wake();
    let vw = s.each_wake(now);
    let a = crate::pacing::soonest(timers, tw);
    let b = crate::pacing::soonest(kept, lw);
    let c = crate::pacing::soonest(ids, vw);
    crate::pacing::the_soonest_of_all(timers, tw);
    crate::pacing::the_soonest_of_all(kept, lw);
    crate::pacing::the_soonest_of_all(ids, vw);
    let wake = crate::pacing::sooner(crate::pacing::sooner(a, b), c);
    crate::pacing::the_earlier_of_two(a, b);
    crate::pacing::the_earlier_of_two(crate::pacing::sooner(a, b), c);
    assert(wake is None ==> tick is None);
    assert(wake is Some ==> tick == Some(
        if wake->0 < now + 100_000 {
            (now + 100_000) as u64
        } else {
            wake->0
        },
    ));
    assert forall|i: int|
        0 <= i < timers.len() && (#[trigger] timers[i]).alive && timers[i].pending
            is Some implies tick is Some && (tick->0 == now + 100_000 || tick->0
        <= s.pacing.clock.release_for(timers[i].pending->0 as int) as u64) by {
        assert(tw(timers[i]) is Some);
    }
    assert forall|i: int|
        0 <= i < s.pacing.loose.len() && (#[trigger] s.pacing.loose[i]).due_ns
            > now implies tick is Some && (tick->0 == now + 100_000 || tick->0
        <= s.pacing.loose[i].due_ns) by {
        let x = s.pacing.loose[i];
        assert(s.pacing.loose.contains(x));
        crate::maps::what_a_filter_keeps(s.pacing.loose, crate::pacing::due_after(now), x);
        let k = choose|k: int| 0 <= k < kept.len() && kept[k] == x;
        assert(lw(kept[k]) is Some);
    }
    assert forall|v: i32| #[trigger]
        s.views.contains_key(v) && !s.views[v].suspended && s.views[v].answer is Some
            && s.views[v].answer->0 > now implies tick is Some && (tick->0 == now + 100_000
        || tick->0 <= s.views[v].answer->0) by {
        assert(s.views.dom().contains(v));
        assert(ids.contains(v));
        let k = choose|k: int| 0 <= k < ids.len() && ids[k] == v;
        assert(vw(ids[k]) is Some);
    }
    if tick is Some && tick->0 > now + 100_000 {
        assert(tick == wake);
        if wake == a {
            let i = choose|i: int| 0 <= i < timers.len() && tw(#[trigger] timers[i]) == a;
            assert(timers[i].alive && timers[i].pending is Some);
        } else if wake == b {
            let k = choose|k: int| 0 <= k < kept.len() && lw(#[trigger] kept[k]) == b;
            assert(kept.contains(kept[k]));
            crate::maps::what_a_filter_keeps(
                s.pacing.loose,
                crate::pacing::due_after(now),
                kept[k],
            );
            let i = choose|i: int| 0 <= i < s.pacing.loose.len() && s.pacing.loose[i] == kept[k];
            assert(s.pacing.loose[i].due_ns == tick->0);
        } else {
            let k = choose|k: int| 0 <= k < ids.len() && vw(#[trigger] ids[k]) == c;
            let v = ids[k];
            assert(ids.contains(v));
            assert(s.views.dom().contains(v));
            assert(s.views.contains_key(v));
            assert(step.0.views[v] == crate::reports::ticked(s.views[v], now));
        }
    }
}

/// A report has the client of the view carry on exactly where a frame it covers
/// held a barrier.
pub proof fn whom_a_report_lets_carry_on(s: StateModel, v: i32, report: Report, c: u64)
    requires
        s.views.contains_key(v),
    ensures
        s.presenting(v, report).1.contains(Action::Unblock(c)) <==> s.client_of(v) == Some(c)
            && exists|i: int|
            0 <= i < s.views[v].frames.len() - s.presenting(v, report).0.views[v].frames.len() && (
            #[trigger] s.views[v].frames[i]).barriers.len() > 0,
{
    let view = s.views[v];
    let n = crate::timing::up_to(view.frames, report.seq);
    crate::timing::what_a_report_covers(view.frames, report.seq, 0);
    let covered = view.frames.take(n);
    let any = crate::timing::any_barrier(covered);
    let freed = s.freed_client(v, any).map_values(|c: u64| Action::Unblock(c));
    let drops = crate::holds::drops(
        view.holds.unfenced.filter(crate::holds::before_frame(report.seq)),
    );
    let told = crate::timing::reported(
        covered,
        crate::timing::shown_by(view.frames, report.seq),
        report.telling(),
    );
    let calls = if view.toplevel is Some {
        seq![
            Action::FrameCallbacks {
                view_id: v,
                time_ms: crate::reports::frame_time(report.ust_ns),
            },
        ]
    } else {
        Seq::empty()
    };
    let b = Action::Unblock(c);
    assert(s.presenting(v, report).1 == drops + told + calls + freed);
    crate::maps::listed_by_either(drops + told + calls, freed, b);
    crate::maps::listed_by_either(drops + told, calls, b);
    crate::maps::listed_by_either(drops, told, b);
    if drops.contains(b) {
        let i = choose|i: int| 0 <= i < drops.len() && drops[i] == b;
        assert(drops[i] is ReleaseBuffer || drops[i] is ReleaseSlot);
    }
    if calls.contains(b) {
        let i = choose|i: int| 0 <= i < calls.len() && calls[i] == b;
        assert(calls[i] is FrameCallbacks);
    }
    let f = |f: FrameModel|
        crate::timing::answers(
            f.feedback,
            crate::timing::shown_by(view.frames, report.seq),
            report.telling(),
        ) + crate::timing::clears(f.barriers);
    crate::maps::listed_by_a_piece(covered, f, b);
    if told.contains(b) {
        let i = choose|i: int| 0 <= i < covered.len() && f(#[trigger] covered[i]).contains(b);
        let piece = f(covered[i]);
        let k = choose|k: int| 0 <= k < piece.len() && piece[k] == b;
        assert(piece[k] is Presented || piece[k] is Discarded || piece[k] is Cleared);
    }
    if any {
        let i = choose|i: int|
            0 <= i < covered.len() && (#[trigger] covered[i]).barriers.len() > 0;
        assert(view.frames[i].barriers.len() > 0);
        if s.client_of(v) == Some(c) {
            assert(freed[0] == b);
        }
    }
    if exists|i: int|
        0 <= i < view.frames.len() - s.presenting(v, report).0.views[v].frames.len() && (
        #[trigger] view.frames[i]).barriers.len() > 0 {
        let i = choose|i: int|
            0 <= i < view.frames.len() - s.presenting(v, report).0.views[v].frames.len() && (
            #[trigger] view.frames[i]).barriers.len() > 0;
        assert(covered[i].barriers.len() > 0);
    }
    if freed.contains(b) {
        let k = choose|k: int| 0 <= k < freed.len() && freed[k] == b;
        assert(any && s.client_of(v) is Some);
    }
}

/// A frame that makes room for another is let go of: its barriers clear, its
/// feedback is discarded, and its client carries on where it held a barrier.
pub proof fn a_frame_that_makes_room_is_let_go(
    s: StateModel,
    v: i32,
    layers: Seq<Layer>,
    fences: Seq<Fence>,
    taken: Taken,
    now: u64,
    i: int,
)
    requires
        s.views.contains_key(v),
        s.views[v].frames.len() == 16,
    ensures
        ({
            let acts = s.accepting(v, layers, fences, taken, now).1;
            let gone = s.views[v].frames[0];
            &&& 0 <= i < gone.barriers.len() ==> acts.contains(Action::Cleared(gone.barriers[i]))
            &&& 0 <= i < gone.feedback.len() ==> acts.contains(
                Action::Discarded(gone.feedback[i].callback),
            )
            &&& gone.barriers.len() > 0 && s.client_of(v) is Some ==> acts.contains(
                Action::Unblock(s.client_of(v)->0),
            )
        }),
{
    let view = s.views[v];
    let frame = s.frame_of(v, layers, taken, now);
    let acts = s.accepting(v, layers, fences, taken, now).1;
    crate::timing::the_last_frames_are_kept(view.frames, frame);
    let gone = crate::timing::displaced(view.frames);
    assert(gone[0] == view.frames[0]);
    let held = crate::submit::holding(view.holds, layers, fences, frame.seq).1;
    let d = crate::timing::discards(
        crate::timing::unseen(taken.feedback@, crate::submit::contents(layers)),
    );
    let u = crate::timing::all_unshown(gone);
    let f = s.freed_client(v, crate::timing::any_barrier(gone)).map_values(
        |c: u64| Action::Unblock(c),
    );
    let head = held + d + u + f;
    let rest = acts.skip(head.len() as int);
    assert(acts =~= head + rest);
    let piece = |f: FrameModel| f.unshown();
    if 0 <= i < view.frames[0].barriers.len() {
        let x = Action::Cleared(view.frames[0].barriers[i]);
        let c = crate::timing::clears(view.frames[0].barriers);
        assert(c[i] == x);
        crate::maps::listed_by_either(crate::timing::discards(view.frames[0].feedback), c, x);
        assert(piece(gone[0]).contains(x));
        crate::maps::listed_by_a_piece(gone, piece, x);
        crate::maps::listed_by_either(held + d, u, x);
        crate::maps::listed_by_either(held + d + u, f, x);
        crate::maps::listed_by_either(head, rest, x);
    }
    if 0 <= i < view.frames[0].feedback.len() {
        let x = Action::Discarded(view.frames[0].feedback[i].callback);
        let c = crate::timing::discards(view.frames[0].feedback);
        assert(c[i] == x);
        crate::maps::listed_by_either(c, crate::timing::clears(view.frames[0].barriers), x);
        assert(piece(gone[0]).contains(x));
        crate::maps::listed_by_a_piece(gone, piece, x);
        crate::maps::listed_by_either(held + d, u, x);
        crate::maps::listed_by_either(held + d + u, f, x);
        crate::maps::listed_by_either(head, rest, x);
    }
    if view.frames[0].barriers.len() > 0 && s.client_of(v) is Some {
        assert(gone[0].barriers.len() > 0);
        let x = Action::Unblock(s.client_of(v)->0);
        assert(f[0] == x);
        crate::maps::listed_by_either(held + d + u, f, x);
        crate::maps::listed_by_either(head, rest, x);
    }
}

/// A view on screen is looked at again when its frame callbacks are to be
/// answered or its barriers go stale, whichever is sooner; one off screen at
/// the next refresh, and not for its frame callbacks.
pub proof fn when_a_view_is_looked_at_again(s: StateModel, v: i32, now: u64)
    requires
        s.views.contains_key(v),
    ensures
        ({
            let view = s.views[v];
            let after = s.watching_frames(v, now).0.pacing;
            let stale = crate::timing::stale_at(view.frames);
            let refresh = s.pacing.clock.vblank_after(now as int) as u64;
            &&& view.suspended ==> after.tick is Some && after.tick->0 <= refresh && (after.tick
                == s.pacing.tick || after.tick->0 == refresh)
            &&& !view.suspended && stale is Some ==> after.tick is Some && after.tick->0 <= stale->0
            &&& !view.suspended && view.answer is Some ==> after.tick is Some && after.tick->0
                <= view.answer->0
            &&& !view.suspended ==> after.tick == s.pacing.tick || after.tick == stale
                || after.tick == view.answer
            &&& s.watching_frames(v, now).0.views == s.views
        }),
{
}

/// A view has something to submit while it shows a toplevel that is there and
/// there is a layer of it.
pub proof fn when_there_is_something_to_submit(s: StateModel, v: i32, layers: Seq<Layer>)
    ensures
        s.can_submit(v, layers) <==> s.views.contains_key(v) && s.views[v].toplevel is Some
            && s.toplevels.contains_key(s.views[v].toplevel->0) && layers.len() > 0,
{
}

/// Where the clock cannot run every barrier of every view's frames clears, and
/// the clients of those views carry on.
pub proof fn no_frame_waits_on_a_clock_that_cannot_run(
    s: StateModel,
    owners: Seq<u64>,
    v: i32,
    i: int,
    j: int,
)
    requires
        s.views.dom().finite(),
        s.views.contains_key(v),
        0 <= i < s.views[v].frames.len(),
        0 <= j < s.views[v].frames[i].barriers.len(),
        s.views[v].frames[i].submitted_ns < u64::MAX,
    ensures
        s.releasing_everything(owners).1.contains(
            Action::Cleared(s.views[v].frames[i].barriers[j]),
        ),
        s.client_of(v) is Some ==> s.releasing_everything(owners).1.contains(
            Action::Unblock(s.client_of(v)->0),
        ),
{
    let ids = crate::maps::listed(s.views.dom());
    crate::maps::every_set_can_be_listed(s.views.dom());
    assert(s.views.dom().contains(v));
    assert(ids.contains(v));
    let k = choose|k: int| 0 <= k < ids.len() && ids[k] == v;
    let frames = s.views[v].frames;
    let x = Action::Cleared(frames[i].barriers[j]);
    let piece = |f: FrameModel|
        if f.submitted_ns < u64::MAX {
            crate::timing::clears(f.barriers)
        } else {
            Seq::empty()
        };
    assert(piece(frames[i])[j] == x);
    assert(piece(frames[i]).contains(x));
    crate::maps::listed_by_a_piece(frames, piece, x);
    assert(crate::timing::clears_before(frames, u64::MAX) == frames.flat_map(piece));
    assert(s.each_release()(ids[k]).contains(x));
    crate::maps::listed_by_a_piece(ids, s.each_release(), x);
    let first = crate::pacing::loose_clears(s.pacing.loose);
    let second = ids.flat_map(s.each_release());
    let a = crate::pacing::loose_clients(s.pacing.loose);
    let c = ids.flat_map(s.each_released_client());
    let third = crate::pacing::unblocks(a + owners + c);
    crate::maps::listed_by_either(first, second, x);
    crate::maps::listed_by_either(first + second, third, x);
    if s.client_of(v) is Some {
        let client = s.client_of(v)->0;
        assert(frames[i].barriers.len() > 0);
        assert(s.each_released_client()(ids[k])[0] == client);
        assert(s.each_released_client()(ids[k]).contains(client));
        crate::maps::listed_by_a_piece(ids, s.each_released_client(), client);
        crate::maps::listed_by_either(a + owners, c, client);
        each_carries_on(a + owners + c, client);
        crate::maps::listed_by_either(first + second, third, Action::Unblock(client));
    }
}

/// What held a client up is cleared before it carries on: of what a report asks
/// for, and of what dropping a view's frames does, the client carrying on comes
/// last.
pub proof fn a_client_carries_on_last(s: StateModel, v: i32, report: Report, i: int)
    requires
        s.views.contains_key(v),
    ensures
        0 <= i < s.presenting(v, report).1.len() && s.presenting(v, report).1[i] is Unblock ==> i
            == s.presenting(v, report).1.len() - 1,
        0 <= i < s.dropping_frames(v).1.len() && s.dropping_frames(v).1[i] is Unblock ==> i
            == s.dropping_frames(v).1.len() - 1,
{
    let acts = s.presenting(v, report).1;
    if 0 <= i < acts.len() && acts[i] is Unblock {
        if i < acts.len() - 1 {
            unblocks_only_last(s, v, report, i);
        }
    }
    let drop = s.dropping_frames(v).1;
    if 0 <= i < drop.len() && drop[i] is Unblock {
        let first = crate::timing::all_unshown(s.views[v].frames);
        if i < first.len() {
            let x = first[i];
            let piece = |f: FrameModel| f.unshown();
            assert(first.contains(x));
            crate::maps::listed_by_a_piece(s.views[v].frames, piece, x);
            let k = choose|k: int|
                0 <= k < s.views[v].frames.len() && piece(#[trigger] s.views[v].frames[k]).contains(
                    x,
                );
            let p = piece(s.views[v].frames[k]);
            let m = choose|m: int| 0 <= m < p.len() && p[m] == x;
            assert(p[m] is Discarded || p[m] is Cleared);
        }
    }
}

proof fn unblocks_only_last(s: StateModel, v: i32, report: Report, i: int)
    requires
        s.views.contains_key(v),
        0 <= i < s.presenting(v, report).1.len() - 1,
    ensures
        !(s.presenting(v, report).1[i] is Unblock),
{
    let view = s.views[v];
    let acts = s.presenting(v, report).1;
    let n = crate::timing::up_to(view.frames, report.seq);
    let covered = view.frames.take(n);
    let shown = crate::timing::shown_by(view.frames, report.seq);
    let drops = crate::holds::drops(
        view.holds.unfenced.filter(crate::holds::before_frame(report.seq)),
    );
    let told = crate::timing::reported(covered, shown, report.telling());
    if i < drops.len() {
        assert(acts[i] == drops[i]);
        assert(drops[i] is ReleaseBuffer || drops[i] is ReleaseSlot);
    } else if i < drops.len() + told.len() {
        let x = told[i - drops.len()];
        assert(acts[i] == x);
        let f = |f: FrameModel|
            crate::timing::answers(f.feedback, shown, report.telling()) + crate::timing::clears(
                f.barriers,
            );
        assert(told.contains(x));
        crate::maps::listed_by_a_piece(covered, f, x);
        let k = choose|k: int| 0 <= k < covered.len() && f(#[trigger] covered[k]).contains(x);
        let p = f(covered[k]);
        let m = choose|m: int| 0 <= m < p.len() && p[m] == x;
        assert(p[m] is Presented || p[m] is Discarded || p[m] is Cleared);
    } else if i == drops.len() + told.len() && view.toplevel is Some {
        assert(acts[i] is FrameCallbacks);
    }
}

/// In a tick every barrier clears before any client carries on.
pub proof fn a_tick_clears_before_clients_carry_on(
    s: StateModel,
    now: u64,
    timers: Seq<Timer>,
    i: int,
    j: int,
)
    requires
        0 <= i < s.ticking(now, timers).1.len(),
        0 <= j < s.ticking(now, timers).1.len(),
        s.ticking(now, timers).1[i] is Cleared,
        s.ticking(now, timers).1[j] is Unblock,
    ensures
        i < j,
{
    let acts = s.ticking(now, timers).1;
    let ids = crate::maps::listed(s.views.dom());
    let due = s.pacing.loose.filter(crate::pacing::due_by(now));
    let first = crate::pacing::loose_clears(due);
    let second = ids.flat_map(s.each_tick(now));
    let clients = timers.flat_map(crate::pacing::timer_client()) + crate::pacing::loose_clients(due)
        + ids.flat_map(s.each_client(now));
    let third = crate::pacing::unblocks(clients);
    let n = first.len() + second.len();
    assert forall|k: int| 0 <= k < n implies !(#[trigger] acts[k] is Unblock) by {
        if k < first.len() {
            assert(acts[k] == first[k]);
        } else {
            let x = second[k - first.len()];
            assert(acts[k] == x);
            assert(second.contains(x));
            crate::maps::listed_by_a_piece(ids, s.each_tick(now), x);
            let m = choose|m: int|
                0 <= m < ids.len() && s.each_tick(now)(#[trigger] ids[m]).contains(x);
            let view = s.views[ids[m]];
            let limit = crate::reports::release_limit(view, now);
            crate::progress::only_clears(view.frames, limit);
            let clears = crate::timing::clears_before(view.frames, limit);
            let whole = crate::reports::tick_actions(ids[m], view, now);
            let q = choose|q: int| 0 <= q < whole.len() && whole[q] == x;
            if q < clears.len() {
                assert(clears[q] is Cleared);
            }
        }
    }
    assert forall|k: int| n <= k < acts.len() implies !(#[trigger] acts[k] is Cleared) by {
        if k < n + third.len() {
            assert(acts[k] == third[k - n]);
        }
    }
}

} // verus!
