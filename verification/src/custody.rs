//! Where each buffer is: every hold on one is given back exactly once.
//!
//! The shell is done with a buffer once its release fence signals or, where it
//! gave none, once a later frame is on screen; until then the hold is kept. Two
//! holds go back before that is known: one whose fence cannot be watched, and,
//! past the bound on holds without a fence, the oldest of them.

use vstd::multiset::Multiset;
use vstd::prelude::*;

use crate::action::Action;
use crate::buffers::BufferKey;
use crate::holds::HoldsModel;
use crate::pacing::Timer;
use crate::state::{StateModel, ViewModel};
use crate::submit::{Fence, Layer};
use crate::timing::{FrameModel, Report, Taken, Told};

verus! {

/// Whether an action drops a hold.
pub open spec fn is_drop(a: Action) -> bool {
    a is ReleaseBuffer || a is ReleaseSlot
}

/// The holds that `actions` drop.
pub open spec fn given_back(actions: Seq<Action>) -> Multiset<Action>
    decreases actions.len(),
{
    if actions.len() == 0 {
        Multiset::empty()
    } else if is_drop(actions.last()) {
        given_back(actions.drop_last()).insert(actions.last())
    } else {
        given_back(actions.drop_last())
    }
}

/// The holds that showing `layers` takes.
pub open spec fn taken_up(layers: Seq<Layer>) -> Multiset<Action> {
    crate::submit::layer_drops(layers).to_multiset()
}

/// Whether `actions` drop no hold.
pub open spec fn keeps(actions: Seq<Action>) -> bool {
    forall|i: int| 0 <= i < actions.len() ==> !is_drop(#[trigger] actions[i])
}

/// What a sequence of actions gives back is what its parts do.
pub proof fn parts_add_up(a: Seq<Action>, b: Seq<Action>)
    ensures
        given_back(a + b) == given_back(a).add(given_back(b)),
    decreases b.len(),
{
    if b.len() == 0 {
        assert(a + b == a);
        assert(given_back(a + b) =~= given_back(a).add(given_back(b)));
    } else {
        assert((a + b).drop_last() == a + b.drop_last());
        parts_add_up(a, b.drop_last());
        assert(given_back(a + b) =~= given_back(a).add(given_back(b)));
    }
}

proof fn nothing_given_back(actions: Seq<Action>)
    requires
        keeps(actions),
    ensures
        given_back(actions) == Multiset::<Action>::empty(),
    decreases actions.len(),
{
    if actions.len() > 0 {
        assert forall|i: int| 0 <= i < actions.drop_last().len() implies !is_drop(
            #[trigger] actions.drop_last()[i],
        ) by {
            assert(actions.drop_last()[i] == actions[i]);
        }
        nothing_given_back(actions.drop_last());
        assert(!is_drop(actions[actions.len() - 1]));
    }
}

proof fn all_given_back(actions: Seq<Action>)
    requires
        forall|i: int| 0 <= i < actions.len() ==> is_drop(#[trigger] actions[i]),
    ensures
        given_back(actions) == actions.to_multiset(),
    decreases actions.len(),
{
    broadcast use vstd::seq_lib::group_to_multiset_ensures;

    if actions.len() == 0 {
        assert(given_back(actions) =~= actions.to_multiset());
    } else {
        let d = actions.drop_last();
        assert forall|i: int| 0 <= i < d.len() implies is_drop(#[trigger] d[i]) by {
            assert(d[i] == actions[i]);
        }
        all_given_back(d);
        assert(is_drop(actions[actions.len() - 1]));
        assert(actions == d.push(actions.last()));
        vstd::seq_lib::to_multiset_build(d, actions.last());
    }
}

/// Drops, before actions that are none.
proof fn then_nothing(drops: Seq<Action>, rest: Seq<Action>)
    requires
        keeps(rest),
    ensures
        given_back(drops + rest) == given_back(drops),
{
    parts_add_up(drops, rest);
    nothing_given_back(rest);
    assert(given_back(drops + rest) =~= given_back(drops));
}

proof fn dropping(holds: Seq<(u64, BufferKey)>)
    ensures
        given_back(crate::holds::drops(holds)) == crate::holds::drops(holds).to_multiset(),
{
    let d = crate::holds::drops(holds);
    assert forall|i: int| 0 <= i < d.len() implies is_drop(#[trigger] d[i]) by {
        assert(d[i] == crate::holds::dropped(holds[i].1));
    }
    all_given_back(d);
}

/// Holding the buffers of `layers` neither loses nor doubles a hold.
proof fn holding_gives_back_or_keeps(
    holds: HoldsModel,
    layers: Seq<Layer>,
    fences: Seq<Fence>,
    seq: u64,
)
    ensures
        ({
            let held = crate::submit::holding(holds, layers, fences, seq);
            holds.count().add(taken_up(layers)) == given_back(held.1).add(held.0.count())
        }),
    decreases layers.len(),
{
    broadcast use vstd::seq_lib::group_to_multiset_ensures;

    let held = crate::submit::holding(holds, layers, fences, seq);
    if layers.len() == 0 {
        assert(crate::submit::layer_drops(layers) == Seq::<Action>::empty());
        assert(holds.count().add(taken_up(layers)) =~= given_back(held.1).add(held.0.count()));
    } else {
        let d = layers.drop_last();
        let key = layers.last().key;
        let drop = crate::holds::dropped(key);
        let before = crate::submit::holding(holds, d, fences, seq);
        holding_gives_back_or_keeps(holds, d, fences, seq);
        assert(layers == d.push(layers.last()));
        assert(crate::submit::layer_drops(layers) == crate::submit::layer_drops(d).push(drop));
        vstd::seq_lib::to_multiset_build(crate::submit::layer_drops(d), drop);
        assert(taken_up(layers) == taken_up(d).insert(drop));
        let all = given_back(before.1).add(before.0.count());
        assert(holds.count().add(taken_up(layers)) =~= all.insert(drop));
        match fences[layers.len() - 1] {
            Fence::Absent => {
                let now = before.0.unfenced_drops(seq, key);
                crate::holds::a_new_hold_is_kept_or_dropped(before.0, seq, key);
                assert forall|i: int| 0 <= i < now.len() implies is_drop(#[trigger] now[i]) by {
                    let first = crate::holds::drops(
                        before.0.unfenced.filter(crate::holds::on(key)),
                    );
                    if i < first.len() {
                        assert(now[i] == first[i]);
                    }
                }
                all_given_back(now);
                parts_add_up(before.1, now);
                assert(held.1 == before.1 + now);
                assert(all.insert(drop) =~= given_back(before.1).add(
                    before.0.count().insert(drop),
                ));
                assert(all.insert(drop) =~= given_back(held.1).add(held.0.count()));
            },
            Fence::Watched(k) => {
                assert(crate::holds::drops(held.0.fenced) == crate::holds::drops(
                    before.0.fenced,
                ).push(drop));
                vstd::seq_lib::to_multiset_build(crate::holds::drops(before.0.fenced), drop);
                assert(held.0.count() =~= before.0.count().insert(drop));
                assert(all.insert(drop) =~= given_back(held.1).add(held.0.count()));
            },
            Fence::Unwatched => {
                assert(before.1.push(drop).drop_last() == before.1);
                assert(all.insert(drop) =~= given_back(held.1).add(held.0.count()));
            },
        }
    }
}

/// Whether every one of `actions` is as `p` says.
pub open spec fn all_are(actions: Seq<Action>, p: spec_fn(Action) -> bool) -> bool {
    forall|i: int| 0 <= i < actions.len() ==> p(#[trigger] actions[i])
}

/// What holds of each part's actions holds of them all.
pub proof fn parts_are<A>(
    parts: Seq<A>,
    of_part: spec_fn(A) -> Seq<Action>,
    p: spec_fn(Action) -> bool,
)
    requires
        forall|i: int| 0 <= i < parts.len() ==> all_are(#[trigger] of_part(parts[i]), p),
    ensures
        all_are(parts.flat_map(of_part), p),
    decreases parts.len(),
{
    if parts.len() == 0 {
        assert(parts.flat_map(of_part) =~= Seq::<Action>::empty()) by {
            reveal(Seq::flatten);
        }
    } else {
        let d = parts.drop_last();
        assert forall|i: int| 0 <= i < d.len() implies all_are(#[trigger] of_part(d[i]), p) by {
            assert(d[i] == parts[i]);
        }
        parts_are(d, of_part, p);
        assert(parts == d.push(parts.last()));
        assert(all_are(of_part(parts[parts.len() - 1]), p));
        d.lemma_flat_map_push(of_part, parts.last());
    }
}

proof fn unshown_keeps(frames: Seq<FrameModel>)
    ensures
        keeps(crate::timing::all_unshown(frames)),
{
    let p = |a: Action| !is_drop(a);
    parts_are(frames, |f: FrameModel| f.unshown(), p);
    let all = crate::timing::all_unshown(frames);
    assert forall|i: int| 0 <= i < all.len() implies !is_drop(#[trigger] all[i]) by {
        assert(p(all[i]));
    }
}

proof fn reported_keeps(frames: Seq<FrameModel>, shown: Seq<(u32, u64)>, told: Told)
    ensures
        keeps(crate::timing::reported(frames, shown, told)),
{
    let p = |a: Action| !is_drop(a);
    parts_are(
        frames,
        |f: FrameModel|
            crate::timing::answers(f.feedback, shown, told) + crate::timing::clears(f.barriers),
        p,
    );
    let all = crate::timing::reported(frames, shown, told);
    assert forall|i: int| 0 <= i < all.len() implies !is_drop(#[trigger] all[i]) by {
        assert(p(all[i]));
    }
}

/// Of a frame the shell took, each layer's buffer is held from then on, or
/// given back at once; no other hold is lost or doubled.
pub proof fn an_accepted_frame_holds_its_buffers(
    s: StateModel,
    v: i32,
    layers: Seq<Layer>,
    fences: Seq<Fence>,
    taken: Taken,
    now: u64,
)
    requires
        s.views.contains_key(v),
    ensures
        ({
            let step = s.accepting(v, layers, fences, taken, now);
            s.views[v].holds.count().add(taken_up(layers)) == given_back(step.1).add(
                step.0.views[v].holds.count(),
            )
        }),
{
    let step = s.accepting(v, layers, fences, taken, now);
    let view = s.views[v];
    let seq = s.frame_of(v, layers, taken, now).seq;
    let held = crate::submit::holding(view.holds, layers, fences, seq).1;
    holding_gives_back_or_keeps(view.holds, layers, fences, seq);
    unshown_keeps(crate::timing::displaced(view.frames));
    let rest = step.1.skip(held.len() as int);
    assert(step.1 == held + rest);
    assert(keeps(rest));
    then_nothing(held, rest);
}

/// Of a frame the shell did not take, each layer's buffer is given back, and
/// nothing else is.
pub proof fn a_refused_frame_gives_its_buffers_back(
    s: StateModel,
    v: i32,
    layers: Seq<Layer>,
    taken: Taken,
    now: u64,
)
    requires
        s.views.contains_key(v),
    ensures
        ({
            let step = s.refusing(v, layers, taken, now);
            &&& given_back(step.1) == taken_up(layers)
            &&& step.0.views[v].holds == s.views[v].holds
        }),
{
    let step = s.refusing(v, layers, taken, now);
    let drops = crate::submit::layer_drops(layers);
    assert forall|i: int| 0 <= i < drops.len() implies is_drop(#[trigger] drops[i]) by {
        assert(drops[i] == crate::holds::dropped(layers[i].key));
    }
    all_given_back(drops);
    let rest = step.1.skip(drops.len() as int);
    assert(step.1 == drops + rest);
    assert(keeps(rest));
    then_nothing(drops, rest);
}

/// A report gives back the holds of frames before the one it reports, each
/// once. What that frame shows, or a later one, stays held.
pub proof fn a_report_gives_back_what_it_replaced(s: StateModel, v: i32, report: Report)
    requires
        s.views.contains_key(v),
    ensures
        ({
            let step = s.presenting(v, report);
            let before = s.views[v].holds;
            let after = step.0.views[v].holds;
            &&& before.count() == given_back(step.1).add(after.count())
            &&& after.fenced == before.fenced
            &&& forall|i: int|
                0 <= i < before.unfenced.len() && (#[trigger] before.unfenced[i]).0 >= report.seq
                    ==> after.unfenced.contains(before.unfenced[i])
            &&& forall|i: int|
                0 <= i < after.unfenced.len() ==> (#[trigger] after.unfenced[i]).0 >= report.seq
        }),
{
    let step = s.presenting(v, report);
    let view = s.views[v];
    let before = view.holds;
    let n = crate::timing::up_to(view.frames, report.seq);
    let lost = before.unfenced.filter(crate::holds::before_frame(report.seq));
    let drops = crate::holds::drops(lost);
    dropping(lost);
    crate::holds::a_report_drops_each_hold_once(before, report.seq);
    reported_keeps(
        view.frames.take(n),
        crate::timing::shown_by(view.frames, report.seq),
        report.telling(),
    );
    let rest = step.1.skip(drops.len() as int);
    assert(step.1 == drops + rest);
    assert(keeps(rest));
    then_nothing(drops, rest);
    assert(before.count() =~= given_back(step.1).add(step.0.views[v].holds.count()));
    let p = crate::holds::from_frame(report.seq);
    broadcast use Seq::lemma_filter_contains, Seq::lemma_filter_pred;

    assert forall|i: int|
        0 <= i < before.unfenced.len() && (#[trigger] before.unfenced[i]).0
            >= report.seq implies step.0.views[v].holds.unfenced.contains(before.unfenced[i]) by {
        assert(p(before.unfenced[i]));
        before.unfenced.lemma_filter_contains(p, i);
    }
    assert forall|i: int| 0 <= i < step.0.views[v].holds.unfenced.len() implies (
    #[trigger] step.0.views[v].holds.unfenced[i]).0 >= report.seq by {
        before.unfenced.lemma_filter_pred(p, i);
    }
}

/// A release fence that signals gives back what it was watched for, each hold
/// once, and nothing else.
pub proof fn a_fence_gives_back_what_it_guards(holds: HoldsModel, key: u64)
    ensures
        ({
            let guarded = holds.fenced.filter(crate::holds::with_key(key));
            &&& holds.count() == given_back(crate::holds::drops(guarded)).add(
                holds.signaled(key).count(),
            )
            &&& holds.signaled(key).unfenced == holds.unfenced
        }),
{
    let guarded = holds.fenced.filter(crate::holds::with_key(key));
    dropping(guarded);
    crate::holds::a_fence_drops_each_hold_once(holds, key);
    assert(holds.count() =~= given_back(crate::holds::drops(guarded)).add(
        holds.signaled(key).count(),
    ));
}

/// The clock gives no buffer back.
pub proof fn a_tick_gives_nothing_back(s: StateModel, now: u64, timers: Seq<Timer>)
    ensures
        ({
            let step = s.ticking(now, timers);
            &&& given_back(step.1) == Multiset::<Action>::empty()
            &&& step.0.views.dom() == s.views.dom()
            &&& forall|v: i32|
                s.views.contains_key(v) ==> (#[trigger] step.0.views[v]).holds == s.views[v].holds
        }),
{
    let step = s.ticking(now, timers);
    let p = |a: Action| !is_drop(a);
    let ids = crate::maps::listed(s.views.dom());
    let each = s.each_tick(now);
    assert forall|i: int| 0 <= i < ids.len() implies all_are(#[trigger] each(ids[i]), p) by {
        ticks_keep(ids[i], s.views[ids[i]], now);
        let acts = each(ids[i]);
        assert forall|j: int| 0 <= j < acts.len() implies p(#[trigger] acts[j]) by {}
    }
    parts_are(ids, each, p);
    assert forall|i: int| 0 <= i < step.1.len() implies !is_drop(#[trigger] step.1[i]) by {
        let first = crate::pacing::loose_clears(s.pacing.loose.filter(crate::pacing::due_by(now)));
        let all = ids.flat_map(each);
        if first.len() <= i < first.len() + all.len() {
            assert(step.1[i] == all[i - first.len()]);
            assert(p(all[i - first.len()]));
        }
    }
    nothing_given_back(step.1);
}

proof fn ticks_keep(v: i32, view: ViewModel, now: u64)
    ensures
        keeps(crate::reports::tick_actions(v, view, now)),
{
    let p = |a: Action| !is_drop(a);
    let limit = crate::reports::release_limit(view, now);
    let of_frame = |f: FrameModel|
        if f.submitted_ns < limit {
            crate::timing::clears(f.barriers)
        } else {
            Seq::empty()
        };
    parts_are(view.frames, of_frame, p);
    let first = crate::timing::clears_before(view.frames, limit);
    let all = crate::reports::tick_actions(v, view, now);
    assert forall|i: int| 0 <= i < all.len() implies !is_drop(#[trigger] all[i]) by {
        if i < first.len() {
            assert(all[i] == first[i]);
            assert(p(first[i]));
        }
    }
}

/// A view that is unbound gives every buffer back, once for each hold.
pub proof fn an_unbound_view_holds_nothing(s: StateModel, v: i32)
    requires
        s.views.contains_key(v),
    ensures
        ({
            let step = s.unbinding(v);
            &&& given_back(step.1) == s.views[v].holds.count()
            &&& step.0.views[v].holds.count() == Multiset::<Action>::empty()
        }),
{
    broadcast use vstd::seq_lib::group_to_multiset_ensures;

    let step = s.unbinding(v);
    let a = s.dropping_frames(v);
    let b = a.0.clearing(v);
    let holds = b.0.views[v].holds;
    let first = a.1 + b.1;
    let fenced = crate::holds::unwatched(v, holds.fenced);
    let unfenced = crate::holds::drops(holds.unfenced);
    let rest = step.1.skip((first + fenced + unfenced).len() as int);
    assert(holds == s.views[v].holds);
    assert(step.1 == first + fenced + unfenced + rest);
    unshown_keeps(s.views[v].frames);
    assert(keeps(first));
    assert(keeps(rest));
    nothing_given_back(first);
    unwatching(v, holds.fenced);
    dropping(holds.unfenced);
    parts_add_up(first, fenced);
    parts_add_up(first + fenced, unfenced);
    then_nothing(first + fenced + unfenced, rest);
    assert(given_back(step.1) =~= holds.count());
    assert(step.0.views[v].holds == holds.cleared());
    assert(crate::holds::drops(Seq::empty()) == Seq::<Action>::empty());
    assert(step.0.views[v].holds.count() =~= Multiset::<Action>::empty());
}

proof fn unwatching(v: i32, fenced: Seq<(u64, BufferKey)>)
    ensures
        given_back(crate::holds::unwatched(v, fenced)) == crate::holds::drops(
            fenced,
        ).to_multiset(),
    decreases fenced.len(),
{
    broadcast use vstd::seq_lib::group_to_multiset_ensures;

    let g = |h: (u64, BufferKey)|
        seq![Action::DropFence { view_id: v, key: h.0 }, crate::holds::dropped(h.1)];
    let all = crate::holds::unwatched(v, fenced);
    if fenced.len() == 0 {
        assert(all =~= Seq::<Action>::empty()) by {
            reveal(Seq::flatten);
        }
        assert(crate::holds::drops(fenced) == Seq::<Action>::empty());
        assert(given_back(all) =~= crate::holds::drops(fenced).to_multiset());
    } else {
        let d = fenced.drop_last();
        let h = fenced.last();
        let drop = crate::holds::dropped(h.1);
        unwatching(v, d);
        assert(fenced == d.push(h));
        d.lemma_flat_map_push(g, h);
        let before = crate::holds::unwatched(v, d);
        assert(all == before + g(h));
        assert(all.drop_last() == before.push(g(h)[0]));
        assert(all.drop_last().drop_last() == before);
        assert(given_back(all.drop_last()) == given_back(before));
        assert(crate::holds::drops(fenced) == crate::holds::drops(d).push(drop));
        vstd::seq_lib::to_multiset_build(crate::holds::drops(d), drop);
        assert(given_back(all) == given_back(before).insert(drop));
    }
}

} // verus!
