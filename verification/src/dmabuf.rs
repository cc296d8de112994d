//! The dma-buf formats offered to clients.

use vstd::prelude::*;

use crate::caps::{Caps, FormatModifier};

verus! {

/// Whether the table of DRM formats lists a format of this number.
pub uninterp spec fn drm_format_known(code: u32) -> bool;

/// Whether a format number is known: `drm_fourcc::DrmFourcc::try_from`
/// succeeds for the numbers in its table of formats and for no others. The
/// table is not written out here; that it has the four linear formats every
/// shell imports is.
#[verifier::external_body]
pub(crate) fn known_fourcc(code: u32) -> (known: bool)
    ensures
        known == drm_format_known(code),
        code == 0x3432_5241 || code == 0x3432_5258 || code == 0x3432_4241 || code == 0x3432_4258
            ==> known,
{
    drm_fourcc::DrmFourcc::try_from(code).is_ok()
}

/// The formats of `offered` that are known.
pub open spec fn known_formats(offered: Seq<FormatModifier>) -> Seq<FormatModifier> {
    offered.filter(|f: FormatModifier| drm_format_known(f.fourcc))
}

/// The dma-buf formats offered to clients: what the shell imports. A fourcc
/// that is not known is left out rather than guessed at.
pub fn formats(offered: &Vec<FormatModifier>) -> (out: Vec<FormatModifier>)
    ensures
        out@ == known_formats(offered@),
{
    let mut known: Vec<bool> = Vec::new();
    let mut i: usize = 0;
    while i < offered.len()
        invariant
            i <= offered.len(),
            known@.len() == i,
            forall|j: int| 0 <= j < i ==> known@[j] == drm_format_known(offered@[j].fourcc),
        decreases offered.len() - i,
    {
        known.push(known_fourcc(offered[i].fourcc));
        i += 1;
    }
    assert(known@ == offered@.map_values(|f: FormatModifier| drm_format_known(f.fourcc)));
    proof {
        select_is_filter(offered@, known@, |f: FormatModifier| drm_format_known(f.fourcc));
    }
    select(offered, &known)
}

/// The items of `offered` whose entry in `keep` is set.
pub open spec fn selected(offered: Seq<FormatModifier>, keep: Seq<bool>) -> Seq<FormatModifier>
    decreases offered.len(),
{
    if offered.len() == 0 {
        Seq::empty()
    } else if keep[offered.len() - 1] {
        selected(offered.drop_last(), keep).push(offered.last())
    } else {
        selected(offered.drop_last(), keep)
    }
}

/// The formats of `offered` whose entry in `keep` is set, in order.
pub fn select(offered: &Vec<FormatModifier>, keep: &Vec<bool>) -> (out: Vec<FormatModifier>)
    requires
        keep@.len() >= offered@.len(),
    ensures
        out@ == selected(offered@, keep@),
{
    let mut out: Vec<FormatModifier> = Vec::new();
    let mut i: usize = 0;
    assert(offered@.take(0) == Seq::<FormatModifier>::empty());
    while i < offered.len()
        invariant
            i <= offered.len(),
            keep@.len() >= offered@.len(),
            out@ == selected(offered@.take(i as int), keep@),
        decreases offered.len() - i,
    {
        assert(offered@.take(i + 1).drop_last() == offered@.take(i as int));
        if keep[i] {
            out.push(offered[i]);
        }
        i += 1;
    }
    assert(offered@.take(i as int) == offered@);
    out
}

proof fn select_is_filter(
    offered: Seq<FormatModifier>,
    keep: Seq<bool>,
    p: spec_fn(FormatModifier) -> bool,
)
    requires
        keep.len() >= offered.len(),
        forall|j: int| 0 <= j < offered.len() ==> #[trigger] keep[j] == p(offered[j]),
    ensures
        selected(offered, keep) == offered.filter(p),
    decreases offered.len(),
{
    reveal(Seq::filter);
    if offered.len() > 0 {
        let d = offered.drop_last();
        assert forall|j: int| 0 <= j < d.len() implies #[trigger] keep[j] == p(d[j]) by {
            assert(d[j] == offered[j]);
        }
        select_is_filter(d, keep, p);
    }
}

/// The version of the dma-buf global: 4, with default feedback naming the
/// shell's render device, where that is known and the feedback was built;
/// without it, 3.
pub fn global_version(caps: &Caps, feedback_built: bool) -> (version: u32)
    ensures
        version == if caps.render_device is Some && feedback_built {
            4u32
        } else {
            3u32
        },
{
    if caps.render_device.is_some() && feedback_built {
        4
    } else {
        3
    }
}

/// Clients are offered what the shell lists, as far as it is known, and in the
/// shell's order.
pub proof fn only_known_formats_are_offered(
    a: Seq<FormatModifier>,
    b: Seq<FormatModifier>,
    f: FormatModifier,
)
    ensures
        known_formats(a).contains(f) <==> a.contains(f) && drm_format_known(f.fourcc),
        known_formats(a + b) == known_formats(a) + known_formats(b),
        known_formats(seq![f]) == if drm_format_known(f.fourcc) {
            seq![f]
        } else {
            Seq::empty()
        },
{
    let p = |g: FormatModifier| drm_format_known(g.fourcc);
    crate::maps::what_a_filter_keeps(a, p, f);
    Seq::filter_distributes_over_add(a, b, p);
    reveal(Seq::filter);
    assert(seq![f].drop_last() == Seq::<FormatModifier>::empty());
    assert(seq![f].drop_last().filter(p) == Seq::<FormatModifier>::empty());
}

/// What is selected is what its mark says, and in order: nothing of what is
/// marked is left out and nothing else comes in.
pub proof fn what_is_marked_is_selected(offered: Seq<FormatModifier>, keep: Seq<bool>)
    requires
        keep.len() >= offered.len(),
    ensures
        forall|f: FormatModifier|
            #![trigger selected(offered, keep).contains(f)]
            selected(offered, keep).contains(f) <==> exists|i: int|
                0 <= i < offered.len() && #[trigger] keep[i] && offered[i] == f,
        (forall|i: int| 0 <= i < offered.len() ==> #[trigger] keep[i]) ==> selected(offered, keep)
            == offered,
    decreases offered.len(),
{
    if offered.len() > 0 {
        let d = offered.drop_last();
        let last = offered.len() - 1;
        what_is_marked_is_selected(d, keep);
        assert(d.push(offered.last()) == offered);
        let s = selected(offered, keep);
        let t = selected(d, keep);
        assert forall|f: FormatModifier| #[trigger] s.contains(f) <==> exists|i: int|
            0 <= i < offered.len() && #[trigger] keep[i] && offered[i] == f by {
            if s.contains(f) {
                let j = choose|j: int| 0 <= j < s.len() && s[j] == f;
                if j < t.len() {
                    assert(t[j] == f);
                    assert(t.contains(f));
                    let i = choose|i: int| 0 <= i < d.len() && #[trigger] keep[i] && d[i] == f;
                    assert(keep[i] && offered[i] == f);
                } else {
                    assert(keep[last] && offered[last] == f);
                }
            }
            if exists|i: int| 0 <= i < offered.len() && #[trigger] keep[i] && offered[i] == f {
                let i = choose|i: int|
                    0 <= i < offered.len() && #[trigger] keep[i] && offered[i] == f;
                if i < last {
                    assert(keep[i] && d[i] == f);
                    assert(t.contains(f));
                    let j = choose|j: int| 0 <= j < t.len() && t[j] == f;
                    assert(s[j] == f);
                } else {
                    assert(s[s.len() - 1] == f);
                }
            }
        }
    }
}

} // verus!
