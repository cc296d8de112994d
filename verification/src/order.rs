//! A view's frames are numbered in the order they are submitted, so a report
//! covers every frame up to the one it names.

use vstd::prelude::*;

use crate::state::{StateModel, ViewModel};
use crate::submit::{Fence, Layer};
use crate::timing::{FrameModel, Report, Taken};

verus! {

/// Whether the view's frames in flight are in the order of their numbers, none
/// beyond its last.
pub open spec fn in_order(view: ViewModel) -> bool {
    &&& forall|i: int, j: int|
        0 <= i < j < view.frames.len() ==> (#[trigger] view.frames[i]).seq < (
        #[trigger] view.frames[j]).seq
    &&& forall|i: int|
        0 <= i < view.frames.len() ==> (#[trigger] view.frames[i]).seq <= view.seq
}

/// A new frame of a view has a larger number than all before it, and takes its
/// place after them.
pub proof fn a_later_frame_has_a_larger_number(
    s: StateModel,
    v: i32,
    layers: Seq<Layer>,
    fences: Seq<Fence>,
    taken: Taken,
    now: u64,
)
    requires
        s.views.contains_key(v),
        s.views[v].seq < u64::MAX,
        in_order(s.views[v]),
    ensures
        ({
            let next = s.accepting(v, layers, fences, taken, now).0.views[v];
            &&& next.seq == s.views[v].seq + 1
            &&& next.frames.last().seq == next.seq
            &&& in_order(next)
        }),
{
}

/// A report of frame `report.seq` covers the frames numbered up to it and no
/// other, and leaves the rest in order.
pub proof fn a_report_covers_what_came_before(s: StateModel, v: i32, report: Report)
    requires
        s.views.contains_key(v),
        in_order(s.views[v]),
    ensures
        ({
            let frames = s.views[v].frames;
            let n = crate::timing::up_to(frames, report.seq);
            let next = s.presenting(v, report).0.views[v];
            &&& forall|i: int|
                0 <= i < frames.len() ==> (i < n <==> (#[trigger] frames[i]).seq <= report.seq)
            &&& next.frames == frames.skip(n)
            &&& next.seq == s.views[v].seq
            &&& in_order(next)
        }),
{
    let frames = s.views[v].frames;
    covered(frames, report.seq);
}

proof fn covered(frames: Seq<FrameModel>, seq: u64)
    requires
        forall|i: int, j: int|
            0 <= i < j < frames.len() ==> (#[trigger] frames[i]).seq < (#[trigger] frames[j]).seq,
    ensures
        0 <= crate::timing::up_to(frames, seq) <= frames.len(),
        forall|i: int|
            0 <= i < frames.len() ==> (i < crate::timing::up_to(frames, seq) <==> (
            #[trigger] frames[i]).seq <= seq),
    decreases frames.len(),
{
    if frames.len() > 0 && frames[0].seq <= seq {
        let rest = frames.drop_first();
        assert forall|i: int, j: int| 0 <= i < j < rest.len() implies (#[trigger] rest[i]).seq < (
        #[trigger] rest[j]).seq by {
            assert(frames[i + 1].seq < frames[j + 1].seq);
        }
        covered(rest, seq);
        assert forall|i: int| 0 <= i < frames.len() implies (i < crate::timing::up_to(frames, seq)
            <==> (#[trigger] frames[i]).seq <= seq) by {
            if i > 0 {
                assert(rest[i - 1] == frames[i]);
            }
        }
    } else if frames.len() > 0 {
        assert forall|i: int| 0 <= i < frames.len() implies (#[trigger] frames[i]).seq > seq by {
            if i > 0 {
                assert(frames[0].seq < frames[i].seq);
            }
        }
    }
}

/// What the clock does leaves a view's frames in order.
pub proof fn a_tick_keeps_the_order(view: ViewModel, now: u64)
    requires
        in_order(view),
    ensures
        in_order(crate::reports::ticked(view, now)),
        crate::reports::ticked(view, now).seq == view.seq,
{
    let next = crate::reports::ticked(view, now);
    assert forall|i: int| 0 <= i < next.frames.len() implies (#[trigger] next.frames[i]).seq
        == view.frames[i].seq by {}
    assert forall|i: int, j: int| 0 <= i < j < next.frames.len() implies (
    #[trigger] next.frames[i]).seq < (#[trigger] next.frames[j]).seq by {
        assert(view.frames[i].seq < view.frames[j].seq);
    }
}

/// A view that is unbound has no frame in flight, and its number only grows.
pub proof fn unbinding_keeps_the_order(s: StateModel, v: i32)
    requires
        s.views.contains_key(v),
        s.views[v].seq < u64::MAX,
    ensures
        in_order(s.unbinding(v).0.views[v]),
        s.unbinding(v).0.views[v].seq >= s.views[v].seq,
{
}

/// A view starts in order.
pub proof fn a_new_view_is_in_order(
    params: crate::params::ViewParams,
    size: Option<(i32, i32)>,
)
    ensures
        in_order(crate::state::fresh_view(params, size)),
{
}

} // verus!
