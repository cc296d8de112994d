//! A client can always make progress: while anything waits on the clock, the
//! clock runs.

use vstd::prelude::*;

use crate::action::Action;
use crate::pacing::Timer;
use crate::state::{StateModel, ViewModel};
use crate::submit::{Fence, Layer};
use crate::timing::{FrameModel, Report, Taken};

verus! {

/// Whether view `view` waits on the clock: its frames hold barriers, or it is
/// on screen and owes its client frame callbacks.
pub open spec fn view_waits(view: ViewModel) -> bool {
    crate::timing::any_barrier(view.frames) || (!view.suspended && view.answer is Some)
}

/// Whether anything waits on the clock.
pub open spec fn waits(s: StateModel) -> bool {
    ||| s.pacing.loose.len() > 0
    ||| s.pacing.timed.len() > 0
    ||| exists|v: i32| #[trigger] s.views.contains_key(v) && view_waits(s.views[v])
}

/// While anything waits on the clock, the clock runs.
pub open spec fn runs(s: StateModel) -> bool {
    waits(s) ==> s.pacing.tick is Some
}

/// A barrier goes stale some time, and only a barrier does.
pub proof fn a_barrier_goes_stale(frames: Seq<FrameModel>)
    ensures
        crate::timing::stale_at(frames) is Some <==> crate::timing::any_barrier(frames),
    decreases frames.len(),
{
    if frames.len() > 0 {
        let d = frames.drop_first();
        a_barrier_goes_stale(d);
        if crate::timing::any_barrier(frames) && frames[0].barriers.len() == 0 {
            let i = choose|i: int|
                0 <= i < frames.len() && (#[trigger] frames[i]).barriers.len() > 0;
            assert(d[i - 1] == frames[i]);
        }
        if crate::timing::any_barrier(d) {
            let i = choose|i: int| 0 <= i < d.len() && (#[trigger] d[i]).barriers.len() > 0;
            assert(frames[i + 1] == d[i]);
        }
    }
}

proof fn soonest_of_any<A>(items: Seq<A>, f: spec_fn(A) -> Option<u64>, i: int)
    requires
        0 <= i < items.len(),
        f(items[i]) is Some,
    ensures
        crate::pacing::soonest(items, f) is Some,
    decreases items.len(),
{
    if i < items.len() - 1 {
        assert(items.drop_last()[i] == items[i]);
        soonest_of_any(items.drop_last(), f, i);
    }
}

proof fn timed_has_a_timer(timed: Seq<u64>, timers: Seq<Timer>) -> (i: int)
    requires
        crate::pacing::still_timed(timed, timers).len() > 0,
    ensures
        0 <= i < timed.len(),
        timers[i].alive && timers[i].pending is Some,
    decreases timed.len(),
{
    let t = timers[timed.len() - 1];
    if t.alive && t.pending is Some {
        timed.len() - 1
    } else {
        timed_has_a_timer(timed.drop_last(), timers)
    }
}

/// After a tick the clock runs on exactly as long as something waits on it.
pub proof fn the_clock_ticks_on(s: StateModel, now: u64, timers: Seq<Timer>)
    requires
        s.wf(),
        timers.len() == s.pacing.timed.len(),
    ensures
        runs(s.ticking(now, timers).0),
{
    let ids = crate::maps::listed(s.views.dom());
    let n = s.ticking(now, timers).0;
    let kept = s.pacing.loose.filter(crate::pacing::due_after(now));
    if waits(n) {
        if kept.len() > 0 {
            soonest_of_any(kept, crate::pacing::loose_wake(), 0);
        } else if n.pacing.timed.len() > 0 {
            let i = timed_has_a_timer(s.pacing.timed, timers);
            soonest_of_any(timers, crate::pacing::timer_wake(s.pacing.clock), i);
        } else {
            let v = choose|v: i32| #[trigger] n.views.contains_key(v) && view_waits(n.views[v]);
            assert(s.views.contains_key(v));
            let after = crate::reports::ticked(s.views[v], now);
            assert(n.views[v] == after);
            a_barrier_goes_stale(after.frames);
            crate::maps::every_set_can_be_listed(s.views.dom());
            assert(s.views.dom().contains(v));
            assert(ids.contains(v));
            let i = choose|i: int| 0 <= i < ids.len() && ids[i] == v;
            soonest_of_any(ids, s.each_wake(now), i);
        }
    }
}

/// A submitted frame is not forgotten: the clock runs whatever the shell says
/// of it.
pub proof fn a_submit_keeps_the_clock_running(
    s: StateModel,
    v: i32,
    layers: Seq<Layer>,
    fences: Seq<Fence>,
    taken: Taken,
    now: u64,
)
    requires
        s.views.contains_key(v),
        runs(s),
    ensures
        runs(s.accepting(v, layers, fences, taken, now).0),
        runs(s.refusing(v, layers, taken, now).0),
        !s.views[v].suspended ==> s.accepting(v, layers, fences, taken, now).0.pacing.tick is Some
            && s.refusing(v, layers, taken, now).0.pacing.tick is Some,
{
    let a = s.accepting(v, layers, fences, taken, now).0;
    let view = a.views[v];
    a_barrier_goes_stale(view.frames);
    assert(a.pacing.tick is Some);
    let r = s.refusing(v, layers, taken, now).0;
    if waits(r) && r.pacing.tick is None {
        assert(s.pacing.tick is None);
        assert(!waits(s));
        let w = choose|w: i32| #[trigger] r.views.contains_key(w) && view_waits(r.views[w]);
        assert(s.views.contains_key(w));
        assert(!view_waits(s.views[w]));
        assert(false);
    }
}

/// A report keeps the clock running for what it does not settle.
pub proof fn a_report_keeps_the_clock_running(s: StateModel, v: i32, report: Report)
    requires
        runs(s),
    ensures
        runs(s.presenting(v, report).0),
{
    let n = s.presenting(v, report).0;
    if waits(n) && n.pacing.loose.len() == 0 && n.pacing.timed.len() == 0 {
        let w = choose|w: i32| #[trigger] n.views.contains_key(w) && view_waits(n.views[w]);
        assert(s.views.contains_key(w));
        if w == v {
            let frames = s.views[v].frames;
            let k = crate::timing::up_to(frames, report.seq);
            crate::ledger::up_to_is_a_prefix(frames, report.seq);
            let i = choose|i: int|
                0 <= i < frames.skip(k).len() && (#[trigger] frames.skip(k)[i]).barriers.len() > 0;
            assert(frames[i + k] == frames.skip(k)[i]);
        }
        assert(view_waits(s.views[w]));
    }
}

/// Leaving or re-entering the scene keeps the clock running for what the view
/// still waits for.
pub proof fn suspending_keeps_the_clock_running(
    s: StateModel,
    v: i32,
    suspended: bool,
    now: u64,
)
    requires
        runs(s),
    ensures
        runs(s.suspending(v, suspended, now).0),
{
    let n = s.suspending(v, suspended, now).0;
    if waits(n) && n.pacing.tick is None {
        assert(s.pacing.tick is None);
        assert(!waits(s));
        assert(n.pacing.loose.len() == 0 && n.pacing.timed.len() == 0);
        let w = choose|w: i32| #[trigger] n.views.contains_key(w) && view_waits(n.views[w]);
        assert(s.views.contains_key(w));
        assert(!view_waits(s.views[w]));
        a_barrier_goes_stale(s.views[w].frames);
        assert(false);
    }
}

/// Unbinding leaves nothing of the view waiting.
pub proof fn unbinding_keeps_the_clock_running(s: StateModel, v: i32)
    requires
        s.wf(),
        runs(s),
    ensures
        runs(s.unbinding(v).0),
        s.views.contains_key(v) ==> !view_waits(s.unbinding(v).0.views[v]),
{
    let n = s.unbinding(v).0;
    if s.views.contains_key(v) {
        crate::state::unbinding_is_kept(s, v);
        assert(n.views[v].frames.len() == 0);
    }
    if waits(n) && n.pacing.loose.len() == 0 && n.pacing.timed.len() == 0 {
        let w = choose|w: i32| #[trigger] n.views.contains_key(w) && view_waits(n.views[w]);
        assert(s.views.contains_key(w));
        assert(view_waits(s.views[w]));
    }
}

/// Off screen, every barrier clears on the clock; on screen, one that went
/// unreported for too long does.
pub proof fn barriers_clear_on_the_clock(view: ViewModel, now: u64, i: int)
    requires
        0 <= i < view.frames.len(),
        view.frames[i].submitted_ns < u64::MAX,
        view.suspended || view.frames[i].submitted_ns + crate::timing::STALE_NS < now,
    ensures
        crate::reports::ticked(view, now).frames[i].barriers.len() == 0,
{
}

/// Frame callbacks due are answered by the tick that finds them due, and only
/// of views on screen.
pub proof fn callbacks_are_answered_when_due(v: i32, view: ViewModel, now: u64)
    ensures
        crate::reports::tick_actions(v, view, now).contains(
            Action::FrameCallbacks {
                view_id: v,
                time_ms: crate::reports::frame_time(now),
            },
        ) <==> !view.suspended && (view.answer matches Some(at) && at <= now),
        view.suspended ==> crate::reports::ticked(view, now).answer == view.answer,
{
    let limit = crate::reports::release_limit(view, now);
    let acts = crate::timing::clears_before(view.frames, limit);
    let fc = Action::FrameCallbacks { view_id: v, time_ms: crate::reports::frame_time(now) };
    only_clears(view.frames, limit);
    let whole = crate::reports::tick_actions(v, view, now);
    if crate::reports::answers_at(view, now) {
        assert(whole[acts.len() as int] == fc);
    } else {
        assert(whole == acts);
        if whole.contains(fc) {
            let i = choose|i: int| 0 <= i < whole.len() && whole[i] == fc;
            assert(acts[i] is Cleared);
        }
    }
}

/// Releasing frames early asks for nothing but that barriers clear.
pub proof fn only_clears(frames: Seq<FrameModel>, limit: u64)
    ensures
        forall|i: int|
            0 <= i < crate::timing::clears_before(frames, limit).len()
                ==> (#[trigger] crate::timing::clears_before(frames, limit)[i]) is Cleared,
    decreases frames.len(),
{
    let g = |f: FrameModel|
        if f.submitted_ns < limit {
            crate::timing::clears(f.barriers)
        } else {
            Seq::empty()
        };
    if frames.len() == 0 {
        assert(frames.flat_map(g) =~= Seq::<Action>::empty()) by {
            reveal(Seq::flatten);
        }
    } else {
        let d = frames.drop_last();
        only_clears(d, limit);
        assert(frames == d.push(frames.last()));
        d.lemma_flat_map_push(g, frames.last());
    }
}

} // verus!
