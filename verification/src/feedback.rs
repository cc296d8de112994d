//! Presentation feedback tells the truth: content is said to have been shown
//! when the frame reported on screen shows it, and only then.

use vstd::prelude::*;

use crate::action::Action;
use crate::state::StateModel;
use crate::submit::{Fence, Layer};
use crate::timing::{FrameModel, Report, Taken, Told};

verus! {

/// Whether an action says that content was shown.
pub open spec fn is_presented(a: Action) -> bool {
    a is Presented
}

/// Whether `actions` say of no content that it was shown.
pub open spec fn presents_nothing(actions: Seq<Action>) -> bool {
    crate::custody::all_are(actions, |a: Action| !is_presented(a))
}

/// Whether feedback `c` awaits content that is among `shown`, in one of
/// `frames`.
pub open spec fn awaits_shown(frames: Seq<FrameModel>, shown: Seq<(u32, u64)>, c: u64) -> bool {
    exists|i: int, j: int|
        0 <= i < frames.len() && 0 <= j < frames[i].feedback.len() && (
        #[trigger] frames[i].feedback[j]).callback == c && shown.contains(
            frames[i].feedback[j].content(),
        )
}

/// What the feedback of `frames` hears.
proof fn each_hears(frames: Seq<FrameModel>, shown: Seq<(u32, u64)>, told: Told)
    ensures
        ({
            let acts = crate::timing::reported(frames, shown, told);
            &&& forall|i: int, j: int|
                0 <= i < frames.len() && 0 <= j < frames[i].feedback.len() ==> acts.contains(
                    if shown.contains((#[trigger] frames[i].feedback[j]).content()) {
                        Action::Presented(frames[i].feedback[j].callback, told)
                    } else {
                        Action::Discarded(frames[i].feedback[j].callback)
                    },
                )
            &&& forall|k: int|
                0 <= k < acts.len() && is_presented(#[trigger] acts[k]) ==> acts[k]->Presented_1 == told && awaits_shown(
                    frames,
                    shown,
                    acts[k]->Presented_0,
                )
        }),
    decreases frames.len(),
{
    let g = |f: FrameModel|
        crate::timing::answers(f.feedback, shown, told) + crate::timing::clears(f.barriers);
    let acts = crate::timing::reported(frames, shown, told);
    if frames.len() == 0 {
        assert(acts =~= Seq::<Action>::empty()) by {
            reveal(Seq::flatten);
        }
    } else {
        let d = frames.drop_last();
        let f = frames.last();
        each_hears(d, shown, told);
        assert(frames == d.push(f));
        d.lemma_flat_map_push(g, f);
        let before = crate::timing::reported(d, shown, told);
        let answers = crate::timing::answers(f.feedback, shown, told);
        assert(acts == before + g(f));
        assert forall|i: int, j: int|
            0 <= i < frames.len() && 0 <= j < frames[i].feedback.len() implies acts.contains(
            if shown.contains((#[trigger] frames[i].feedback[j]).content()) {
                Action::Presented(frames[i].feedback[j].callback, told)
            } else {
                Action::Discarded(frames[i].feedback[j].callback)
            },
        ) by {
            let said = if shown.contains(frames[i].feedback[j].content()) {
                Action::Presented(frames[i].feedback[j].callback, told)
            } else {
                Action::Discarded(frames[i].feedback[j].callback)
            };
            if i < d.len() {
                assert(d[i].feedback[j] == frames[i].feedback[j]);
                assert(before.contains(said));
                let k = choose|k: int| 0 <= k < before.len() && before[k] == said;
                assert(acts[k] == said);
            } else {
                assert(answers[j] == said);
                assert(acts[before.len() + j] == said);
            }
        }
        assert forall|k: int|
            0 <= k < acts.len() && is_presented(#[trigger] acts[k]) implies acts[k]->Presented_1 == told && awaits_shown(
            frames,
            shown,
            acts[k]->Presented_0,
        ) by {
            let c = acts[k]->Presented_0;
            if k < before.len() {
                assert(before[k] == acts[k]);
                assert(awaits_shown(d, shown, c));
                let (i, j) = choose|i: int, j: int|
                    0 <= i < d.len() && 0 <= j < d[i].feedback.len() && (
                    #[trigger] d[i].feedback[j]).callback == c && shown.contains(
                        d[i].feedback[j].content(),
                    );
                assert(frames[i].feedback[j] == d[i].feedback[j]);
            } else {
                let j = k - before.len();
                assert(g(f)[j] == acts[k]);
                if j < answers.len() {
                    assert(answers[j] == acts[k]);
                    assert(frames[frames.len() - 1].feedback[j].callback == c);
                }
            }
        }
    }
}

/// Of the frames a report covers, each feedback hears that its content was
/// shown if the frame reported shows that content, and that it was not if it
/// does not. No other feedback hears that its content was shown. What is told
/// of shown content is the report's time, refresh, counter and flags.
pub proof fn what_was_shown_is_presented(s: StateModel, v: i32, report: Report)
    requires
        s.views.contains_key(v),
    ensures
        ({
            let frames = s.views[v].frames;
            let covered = frames.take(crate::timing::up_to(frames, report.seq));
            let shown = crate::timing::shown_by(frames, report.seq);
            let told = report.telling();
            let acts = s.presenting(v, report).1;
            &&& forall|i: int, j: int|
                0 <= i < covered.len() && 0 <= j < covered[i].feedback.len() ==> acts.contains(
                    if shown.contains((#[trigger] covered[i].feedback[j]).content()) {
                        Action::Presented(covered[i].feedback[j].callback, told)
                    } else {
                        Action::Discarded(covered[i].feedback[j].callback)
                    },
                )
            &&& forall|k: int|
                0 <= k < acts.len() && is_presented(#[trigger] acts[k]) ==> acts[k]->Presented_1 == told && awaits_shown(
                    covered,
                    shown,
                    acts[k]->Presented_0,
                )
        }),
{
    let frames = s.views[v].frames;
    let covered = frames.take(crate::timing::up_to(frames, report.seq));
    let shown = crate::timing::shown_by(frames, report.seq);
    let told = report.telling();
    let acts = s.presenting(v, report).1;
    let lost = s.views[v].holds.unfenced.filter(crate::holds::before_frame(report.seq));
    let drops = crate::holds::drops(lost);
    let middle = crate::timing::reported(covered, shown, told);
    each_hears(covered, shown, told);
    let tail = acts.skip((drops + middle).len() as int);
    assert(acts == drops + middle + tail);
    assert forall|i: int, j: int|
        0 <= i < covered.len() && 0 <= j < covered[i].feedback.len() implies acts.contains(
        if shown.contains((#[trigger] covered[i].feedback[j]).content()) {
            Action::Presented(covered[i].feedback[j].callback, told)
        } else {
            Action::Discarded(covered[i].feedback[j].callback)
        },
    ) by {
        let said = if shown.contains(covered[i].feedback[j].content()) {
            Action::Presented(covered[i].feedback[j].callback, told)
        } else {
            Action::Discarded(covered[i].feedback[j].callback)
        };
        assert(middle.contains(said));
        let k = choose|k: int| 0 <= k < middle.len() && middle[k] == said;
        assert(acts[drops.len() + k] == said);
    }
    assert forall|k: int|
        0 <= k < acts.len() && is_presented(#[trigger] acts[k]) implies acts[k]->Presented_1 == told && awaits_shown(
        covered,
        shown,
        acts[k]->Presented_0,
    ) by {
        if k < drops.len() {
            assert(acts[k] == crate::holds::dropped(lost[k].1));
        } else if k < drops.len() + middle.len() {
            assert(middle[k - drops.len()] == acts[k]);
        } else {
            assert(tail[k - (drops + middle).len()] == acts[k]);
        }
    }
}

proof fn unshown_presents_nothing(frames: Seq<FrameModel>)
    ensures
        presents_nothing(crate::timing::all_unshown(frames)),
{
    crate::custody::parts_are(
        frames,
        |f: FrameModel| f.unshown(),
        |a: Action| !is_presented(a),
    );
}

proof fn holding_presents_nothing(
    s: StateModel,
    v: i32,
    layers: Seq<Layer>,
    fences: Seq<Fence>,
    seq: u64,
)
    ensures
        presents_nothing(
            crate::submit::holding(s.views[v].holds, layers, fences, seq).1,
        ),
    decreases layers.len(),
{
    if layers.len() > 0 {
        holding_presents_nothing(s, v, layers.drop_last(), fences, seq);
        let held = crate::submit::holding(s.views[v].holds, layers, fences, seq).1;
        let p = |a: Action| !is_presented(a);
        let before = crate::submit::holding(s.views[v].holds, layers.drop_last(), fences, seq).1;
        assert forall|i: int| 0 <= i < held.len() implies p(#[trigger] held[i]) by {
            if i < before.len() {
                assert(held[i] == before[i]);
                assert(p(before[i]));
            }
        }
    }
}

/// Submitting a frame tells no feedback that its content was shown, whether
/// the shell takes the frame or not.
pub proof fn submitting_presents_nothing(
    s: StateModel,
    v: i32,
    layers: Seq<Layer>,
    fences: Seq<Fence>,
    taken: Taken,
    now: u64,
)
    requires
        s.views.contains_key(v),
    ensures
        presents_nothing(s.accepting(v, layers, fences, taken, now).1),
        presents_nothing(s.refusing(v, layers, taken, now).1),
{
    let view = s.views[v];
    let p = |a: Action| !is_presented(a);
    let seq = s.frame_of(v, layers, taken, now).seq;
    let held = crate::submit::holding(view.holds, layers, fences, seq).1;
    let gone = crate::timing::all_unshown(crate::timing::displaced(view.frames));
    holding_presents_nothing(s, v, layers, fences, seq);
    unshown_presents_nothing(crate::timing::displaced(view.frames));
    let acts = s.accepting(v, layers, fences, taken, now).1;
    let lost = crate::timing::discards(
        crate::timing::unseen(taken.feedback@, crate::submit::contents(layers)),
    );
    let tail = acts.skip((held + lost + gone).len() as int);
    assert(acts == held + lost + gone + tail);
    assert forall|i: int| 0 <= i < acts.len() implies p(#[trigger] acts[i]) by {
        if i < held.len() {
            assert(acts[i] == held[i]);
            assert(p(held[i]));
        } else if i < held.len() + lost.len() {
            assert(acts[i] == lost[i - held.len()]);
        } else if i < held.len() + lost.len() + gone.len() {
            assert(acts[i] == gone[i - held.len() - lost.len()]);
            assert(p(gone[i - held.len() - lost.len()]));
        }
    }
    let refused = s.refusing(v, layers, taken, now).1;
    assert forall|i: int| 0 <= i < refused.len() implies p(#[trigger] refused[i]) by {}
}

/// A view that is unbound tells no feedback that its content was shown.
pub proof fn unbinding_presents_nothing(s: StateModel, v: i32)
    requires
        s.views.contains_key(v),
    ensures
        presents_nothing(s.unbinding(v).1),
{
    let p = |a: Action| !is_presented(a);
    let acts = s.unbinding(v).1;
    let a = s.dropping_frames(v);
    let gone = crate::timing::all_unshown(s.views[v].frames);
    unshown_presents_nothing(s.views[v].frames);
    let fenced = s.views[v].holds.fenced;
    let unwatched = crate::holds::unwatched(v, fenced);
    crate::custody::parts_are(
        fenced,
        |h: (u64, crate::buffers::BufferKey)|
            seq![Action::DropFence { view_id: v, key: h.0 }, crate::holds::dropped(h.1)],
        p,
    );
    let first = a.1 + a.0.clearing(v).1;
    assert forall|i: int| 0 <= i < acts.len() implies p(#[trigger] acts[i]) by {
        if i < gone.len() {
            assert(acts[i] == gone[i]);
            assert(p(gone[i]));
        } else if first.len() <= i < first.len() + unwatched.len() {
            assert(acts[i] == unwatched[i - first.len()]);
            assert(p(unwatched[i - first.len()]));
        }
    }
}

} // verus!
