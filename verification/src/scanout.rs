//! Per-surface dma-buf feedback: a scanout tranche for a surface whose layer
//! could go on a KMS plane but for its buffer's format.
//!
//! The shell tells a view when one of its layers could bypass composition if
//! its buffer were in another format: the formats the planes scan out, and the
//! device they belong to. The surface behind that layer then gets feedback
//! with a scanout tranche for that device ahead of the main one, so a client
//! allocates its next buffers for a plane. The tranche offers only what the
//! shell also imports, since a hint is no promise of a plane and the shell may
//! composite the buffer after all.
//!
//! The shell withdraws a hint once the layer's format fits, which is the
//! tranche working, so the tranche stays: taking it away would have the client
//! allocate for the GPU again, and the shell hint again. The surface goes back
//! to the default feedback when it leaves its view.

use vstd::prelude::*;

use crate::action::Action;
use crate::caps::{lists_format, FormatModifier};
use crate::dmabuf::formats;

verus! {

/// What the shell hinted for one layer of a view.
#[derive(Clone, Debug)]
pub struct Hint {
    pub layer_id: u32,
    /// The KMS device.
    pub dev: u64,
    /// What its planes scan out; empty withdraws the hint.
    pub formats: Vec<FormatModifier>,
}

/// A surface with a scanout tranche, and the view that shows it.
#[derive(Clone, Copy, Debug, PartialEq, Eq, Structural)]
pub struct Hinted {
    pub surface: u64,
    pub view: i32,
}

/// The feedback last built, kept while hints keep asking for the same.
#[derive(Debug)]
pub struct Built {
    pub dev: u64,
    pub hinted: Vec<FormatModifier>,
    /// Whether there is any: not when the shell imports none of the hinted
    /// formats.
    pub any: bool,
}

/// The surfaces with a scanout tranche, and the feedback last built.
#[derive(Debug)]
pub struct Scanout {
    pub hinted: Vec<Hinted>,
    pub last: Option<Built>,
}

/// A tranche of a feedback: the formats that are good for a device.
#[derive(Debug, PartialEq)]
pub struct Tranche {
    pub dev: u64,
    /// Its buffers may go on a plane.
    pub scanout: bool,
    pub formats: Vec<FormatModifier>,
}

/// What to do about a hint.
#[derive(Debug, PartialEq)]
pub enum HintStep {
    /// Nothing: it was withdrawn, or there is no feedback to add to, or no
    /// such surface.
    Nothing,
    /// Use the feedback last built, if there was any.
    Reuse { surface: u64, any: bool },
    /// Build feedback with these tranches, the preferred one first.
    Build { surface: u64, tranches: Vec<Tranche> },
    /// The shell imports none of the hinted formats: there is no feedback to
    /// build.
    Unfit { surface: u64 },
}

/// Formats that `imported` lists.
pub open spec fn imported_by(imported: Seq<FormatModifier>) -> spec_fn(FormatModifier) -> bool {
    |f: FormatModifier| imported.contains(f)
}

/// The hinted formats that the shell also imports, in the hinted order.
pub open spec fn tranche_of(
    imported: Seq<FormatModifier>,
    hinted: Seq<FormatModifier>,
) -> Seq<FormatModifier> {
    hinted.filter(imported_by(imported))
}

/// Whether `tranches` are those of the feedback for a hint, in the order a
/// client reads them: for the hinted device `dev`, to scan out, the hinted
/// formats that the shell also imports; then for its own device `main` all that
/// it imports. Formats that are not known are left out of both.
pub open spec fn feedback_for(
    tranches: Seq<Tranche>,
    main: u64,
    dev: u64,
    imported: Seq<FormatModifier>,
    hinted: Seq<FormatModifier>,
) -> bool {
    &&& tranches.len() == 2
    &&& tranches[0].dev == dev
    &&& tranches[0].scanout
    &&& tranches[0].formats@ == crate::dmabuf::known_formats(tranche_of(imported, hinted))
    &&& tranches[1].dev == main
    &&& !tranches[1].scanout
    &&& tranches[1].formats@ == crate::dmabuf::known_formats(imported)
}

/// Surfaces other than `surface`.
pub open spec fn not_surface(surface: u64) -> spec_fn(Hinted) -> bool {
    |h: Hinted| h.surface != surface
}

/// Surfaces of other views than `view`.
pub open spec fn not_view(view: i32) -> spec_fn(Hinted) -> bool {
    |h: Hinted| h.view != view
}

/// Surfaces of view `view`.
pub open spec fn of_view(view: i32) -> spec_fn(Hinted) -> bool {
    |h: Hinted| h.view == view
}

/// The surfaces with a tranche once `surface`, shown in view `view`, was given
/// the feedback last built, if there is any.
pub open spec fn given(hinted: Seq<Hinted>, surface: u64, view: i32, any: bool) -> Seq<Hinted> {
    if any {
        hinted.filter(not_surface(surface)).push(Hinted { surface, view })
    } else {
        hinted.filter(not_surface(surface))
    }
}

/// Whether `surface` has a tranche.
pub open spec fn has_tranche(hinted: Seq<Hinted>, surface: u64) -> bool {
    exists|i: int| 0 <= i < hinted.len() && (#[trigger] hinted[i]).surface == surface
}

/// Whether `surface` has a tranche for being shown in view `view`.
pub open spec fn has_tranche_in(hinted: Seq<Hinted>, surface: u64, view: i32) -> bool {
    hinted.contains(Hinted { surface, view })
}

/// Each of `surfaces` goes back to the default feedback.
pub open spec fn defaults(surfaces: Seq<Hinted>) -> Seq<Action> {
    surfaces.map_values(|h: Hinted| Action::DefaultFeedback(h.surface))
}

/// Whether `last` was built for this device and these formats.
pub open spec fn built_for(last: Option<Built>, dev: u64, formats: Seq<FormatModifier>) -> bool {
    last matches Some(b) && b.dev == dev && b.hinted@ == formats
}

/// The hinted formats that the shell also imports.
pub fn tranche(imported: &Vec<FormatModifier>, hinted: &Vec<FormatModifier>) -> (out: Vec<
    FormatModifier,
>)
    ensures
        out@ == tranche_of(imported@, hinted@),
{
    let ghost p = imported_by(imported@);
    let mut out: Vec<FormatModifier> = Vec::new();
    let mut i: usize = 0;
    proof {
        assert(hinted@.take(0) == Seq::<FormatModifier>::empty());
        assert(Seq::<FormatModifier>::empty().filter(p) == Seq::<FormatModifier>::empty()) by {
            reveal(Seq::filter);
        }
    }
    while i < hinted.len()
        invariant
            i <= hinted.len(),
            p == imported_by(imported@),
            out@ == hinted@.take(i as int).filter(p),
        decreases hinted.len() - i,
    {
        proof {
            assert(hinted@.take(i + 1) == hinted@.take(i as int).push(hinted@[i as int]));
            hinted@.take(i as int).lemma_filter_push(hinted@[i as int], p);
        }
        if lists_format(imported, hinted[i]) {
            out.push(hinted[i]);
        }
        i += 1;
    }
    assert(hinted@.take(i as int) == hinted@);
    out
}

/// The tranches of the feedback for a hint. None when the shell imports none of
/// the hinted formats.
pub fn scanout_feedback(
    main: u64,
    dev: u64,
    imported: &Vec<FormatModifier>,
    hinted: &Vec<FormatModifier>,
) -> (tranches: Option<Vec<Tranche>>)
    ensures
        tranches is Some <==> tranche_of(imported@, hinted@).len() > 0,
        tranches matches Some(t) ==> feedback_for(t@, main, dev, imported@, hinted@),
{
    let fit = tranche(imported, hinted);
    if fit.len() == 0 {
        return None;
    }
    let mut tranches: Vec<Tranche> = Vec::new();
    tranches.push(Tranche { dev, scanout: true, formats: formats(&fit) });
    tranches.push(Tranche { dev: main, scanout: false, formats: formats(imported) });
    Some(tranches)
}

fn same_formats(a: &Vec<FormatModifier>, b: &Vec<FormatModifier>) -> (same: bool)
    ensures
        same == (a@ == b@),
{
    if a.len() != b.len() {
        return false;
    }
    let mut i: usize = 0;
    while i < a.len()
        invariant
            i <= a.len(),
            a.len() == b.len(),
            forall|j: int| 0 <= j < i ==> a@[j] == b@[j],
        decreases a.len() - i,
    {
        if a[i] != b[i] {
            return false;
        }
        i += 1;
    }
    assert(a@ =~= b@);
    true
}

/// The first surface of a scene that is layer `layer_id`: the surfaces in the
/// order they are drawn, each with its layer id if it has one.
pub open spec fn layer_in(scene: Seq<(u64, Option<u32>)>, layer_id: u32) -> Option<u64>
    decreases scene.len(),
{
    if scene.len() == 0 {
        None
    } else {
        match layer_in(scene.drop_last(), layer_id) {
            Some(s) => Some(s),
            None => if scene.last().1 == Some(layer_id) {
                Some(scene.last().0)
            } else {
                None
            },
        }
    }
}

/// The surface of a scene that is layer `layer_id`.
pub fn layer_surface(scene: &Vec<(u64, Option<u32>)>, layer_id: u32) -> (surface: Option<u64>)
    ensures
        surface == layer_in(scene@, layer_id),
{
    let mut found: Option<u64> = None;
    let mut i: usize = 0;
    assert(scene@.take(0) == Seq::<(u64, Option<u32>)>::empty());
    while i < scene.len()
        invariant
            i <= scene.len(),
            found == layer_in(scene@.take(i as int), layer_id),
        decreases scene.len() - i,
    {
        assert(scene@.take(i + 1).drop_last() == scene@.take(i as int));
        if found.is_none() {
            if let Some(id) = scene[i].1 {
                if id == layer_id {
                    found = Some(scene[i].0);
                }
            }
        }
        i += 1;
    }
    assert(scene@.take(i as int) == scene@);
    found
}

impl Scanout {
    pub fn new() -> (s: Scanout)
        ensures
            s.hinted@ == Seq::<Hinted>::empty(),
            s.last is None,
    {
        Scanout { hinted: Vec::new(), last: None }
    }

    /// The shell's hint for the layer that is `surface`, if there is one.
    /// `main` is the shell's own device, where there is default feedback for
    /// it to add a tranche to.
    pub fn scanout_hint(
        &self,
        imported: &Vec<FormatModifier>,
        main: Option<u64>,
        surface: Option<u64>,
        hint: &Hint,
    ) -> (step: HintStep)
        ensures
            if hint.formats@.len() == 0 || main is None || surface is None {
                step is Nothing
            } else if built_for(self.last, hint.dev, hint.formats@) {
                step == (HintStep::Reuse { surface: surface->0, any: self.last->0.any })
            } else if tranche_of(imported@, hint.formats@).len() == 0 {
                step == (HintStep::Unfit { surface: surface->0 })
            } else {
                step matches HintStep::Build { surface: s, tranches } && s == surface->0
                    && feedback_for(tranches@, main->0, hint.dev, imported@, hint.formats@)
            },
    {
        let (main, s): (u64, u64) = match (main, surface) {
            (Some(main), Some(s)) => (main, s),
            _ => {
                return HintStep::Nothing;
            },
        };
        if hint.formats.len() == 0 {
            return HintStep::Nothing;
        }
        if let Some(built) = &self.last {
            if built.dev == hint.dev && same_formats(&built.hinted, &hint.formats) {
                return HintStep::Reuse { surface: s, any: built.any };
            }
        }
        match scanout_feedback(main, hint.dev, imported, &hint.formats) {
            Some(tranches) => HintStep::Build { surface: s, tranches },
            None => HintStep::Unfit { surface: s },
        }
    }

    /// What came of a hint: whether there is feedback for it, which takes a
    /// format that the shell also imports and the feedback built (`built`).
    /// That is kept while hints keep asking for the same.
    pub fn built(&mut self, imported: &Vec<FormatModifier>, hint: Hint, built: bool) -> (any: bool)
        ensures
            any == (built && tranche_of(imported@, hint.formats@).len() > 0),
            built_for(final(self).last, hint.dev, hint.formats@),
            final(self).last->0.any == any,
            final(self).hinted@ == old(self).hinted@,
    {
        let any: bool = built && tranche(imported, &hint.formats).len() > 0;
        self.last = Some(Built { dev: hint.dev, hinted: hint.formats, any });
        any
    }

    /// `surface`, shown in view `view`, gets the feedback last built, or the
    /// default where there is none.
    pub fn give(&mut self, surface: u64, view: i32, any: bool, out: &mut Vec<Action>)
        ensures
            final(self).hinted@ == given(old(self).hinted@, surface, view, any),
            final(self).last == old(self).last,
            final(out)@ == old(out)@.push(
                if any {
                    Action::ScanoutFeedback(surface)
                } else {
                    Action::DefaultFeedback(surface)
                },
            ),
    {
        self.forget_surface(surface);
        if any {
            self.hinted.push(Hinted { surface, view });
            out.push(Action::ScanoutFeedback(surface));
        } else {
            out.push(Action::DefaultFeedback(surface));
        }
    }

    /// The surface is gone, or has another tranche.
    pub fn forget_surface(&mut self, surface: u64)
        ensures
            final(self).hinted@ == old(self).hinted@.filter(not_surface(surface)),
            final(self).last == old(self).last,
    {
        let ghost p = not_surface(surface);
        let ghost all = self.hinted@;
        let mut kept: Vec<Hinted> = Vec::new();
        let mut i: usize = 0;
        proof {
            assert(all.take(0) == Seq::<Hinted>::empty());
            assert(Seq::<Hinted>::empty().filter(p) == Seq::<Hinted>::empty()) by {
                reveal(Seq::filter);
            }
        }
        while i < self.hinted.len()
            invariant
                i <= self.hinted.len(),
                all == self.hinted@,
                *self == *old(self),
                p == not_surface(surface),
                kept@ == all.take(i as int).filter(p),
            decreases self.hinted.len() - i,
        {
            let h = self.hinted[i];
            proof {
                assert(all.take(i + 1) == all.take(i as int).push(h));
                all.take(i as int).lemma_filter_push(h, p);
            }
            if h.surface != surface {
                kept.push(h);
            }
            i += 1;
        }
        assert(all.take(i as int) == all);
        self.hinted = kept;
    }

    /// The view no longer shows its surfaces: they go back to the default
    /// feedback.
    pub fn forget_scanout(&mut self, view: i32, out: &mut Vec<Action>)
        ensures
            final(self).hinted@ == old(self).hinted@.filter(not_view(view)),
            final(self).last == old(self).last,
            final(out)@ == old(out)@ + defaults(old(self).hinted@.filter(of_view(view))),
    {
        let ghost keep = not_view(view);
        let ghost lose = of_view(view);
        let ghost all = self.hinted@;
        let mut kept: Vec<Hinted> = Vec::new();
        let mut i: usize = 0;
        proof {
            assert(all.take(0) == Seq::<Hinted>::empty());
            assert(Seq::<Hinted>::empty().filter(keep) == Seq::<Hinted>::empty()) by {
                reveal(Seq::filter);
            }
            assert(Seq::<Hinted>::empty().filter(lose) == Seq::<Hinted>::empty()) by {
                reveal(Seq::filter);
            }
            assert(defaults(Seq::empty()) == Seq::<Action>::empty());
        }
        while i < self.hinted.len()
            invariant
                i <= self.hinted.len(),
                all == self.hinted@,
                *self == *old(self),
                keep == not_view(view),
                lose == of_view(view),
                kept@ == all.take(i as int).filter(keep),
                out@ == old(out)@ + defaults(all.take(i as int).filter(lose)),
            decreases self.hinted.len() - i,
        {
            let h = self.hinted[i];
            proof {
                let done = all.take(i as int);
                assert(all.take(i + 1) == done.push(h));
                done.lemma_filter_push(h, keep);
                done.lemma_filter_push(h, lose);
                assert(defaults(done.filter(lose).push(h)) == defaults(done.filter(lose)).push(
                    Action::DefaultFeedback(h.surface),
                ));
            }
            if h.view == view {
                out.push(Action::DefaultFeedback(h.surface));
            } else {
                kept.push(h);
            }
            i += 1;
        }
        assert(all.take(i as int) == all);
        self.hinted = kept;
    }

    /// Whether a surface asking for feedback after the hint came gets the
    /// tranche.
    pub fn hinted_feedback(&self, surface: u64) -> (yes: bool)
        ensures
            yes == has_tranche(self.hinted@, surface),
    {
        let mut i: usize = 0;
        while i < self.hinted.len()
            invariant
                i <= self.hinted.len(),
                forall|j: int| 0 <= j < i ==> (#[trigger] self.hinted@[j]).surface != surface,
            decreases self.hinted.len() - i,
        {
            if self.hinted[i].surface == surface {
                return true;
            }
            i += 1;
        }
        false
    }
}

/// A tranche offers only formats that the planes scan out and that the shell
/// also imports, and every such format.
pub proof fn a_tranche_is_importable(
    imported: Seq<FormatModifier>,
    hinted: Seq<FormatModifier>,
    f: FormatModifier,
)
    ensures
        tranche_of(imported, hinted).contains(f) <==> imported.contains(f) && hinted.contains(f),
    decreases hinted.len(),
{
    let p = imported_by(imported);
    if hinted.len() == 0 {
        assert(tranche_of(imported, hinted) == Seq::<FormatModifier>::empty()) by {
            reveal(Seq::filter);
        }
    } else {
        let d = hinted.drop_last();
        let last = hinted.last();
        a_tranche_is_importable(imported, d, f);
        assert(hinted == d.push(last));
        d.lemma_filter_push(last, p);
        let t = tranche_of(imported, d);
        if p(last) {
            assert(t.push(last)[t.len() as int] == last);
            if t.contains(f) {
                let i = choose|i: int| 0 <= i < t.len() && t[i] == f;
                assert(t.push(last)[i] == f);
            }
        }
        assert(hinted[d.len() as int] == last);
        if d.contains(f) {
            let i = choose|i: int| 0 <= i < d.len() && d[i] == f;
            assert(hinted[i] == f);
        }
    }
}

/// A surface keeps its tranche while its view shows it: what other surfaces
/// get and what other views stop showing leaves it. It is lost when the view
/// stops showing it, or when a new hint finds nothing for it.
pub proof fn a_tranche_stays_while_shown(
    hinted: Seq<Hinted>,
    surface: u64,
    view: i32,
    other: u64,
    elsewhere: i32,
    any: bool,
)
    ensures
        has_tranche_in(given(hinted, surface, view, true), surface, view),
        !has_tranche(given(hinted, surface, view, false), surface),
        other != surface ==> (has_tranche_in(hinted, surface, view) <==> has_tranche_in(
            given(hinted, other, elsewhere, any),
            surface,
            view,
        )),
        elsewhere != view ==> (has_tranche_in(hinted, surface, view) <==> has_tranche_in(
            hinted.filter(not_view(elsewhere)),
            surface,
            view,
        )),
        !has_tranche_in(hinted.filter(not_view(view)), surface, view),
{
    let h = Hinted { surface, view };
    let first = hinted.filter(not_surface(surface));
    let with = given(hinted, surface, view, true);
    assert(with[first.len() as int] == h);
    assert forall|i: int| 0 <= i < first.len() implies (#[trigger] first[i]).surface
        != surface by {
        hinted.lemma_filter_pred(not_surface(surface), i);
    }
    kept_by(hinted, not_surface(other), h);
    kept_by(hinted, not_view(elsewhere), h);
    kept_by(hinted, not_view(view), h);
    let rest = hinted.filter(not_surface(other));
    let next = given(hinted, other, elsewhere, any);
    if other != surface {
        if rest.contains(h) {
            let i = choose|i: int| 0 <= i < rest.len() && rest[i] == h;
            assert(next[i] == h);
        }
        if next.contains(h) {
            let i = choose|i: int| 0 <= i < next.len() && next[i] == h;
            assert(rest[i] == h);
        }
    }
}

/// What a filter keeps.
proof fn kept_by(hinted: Seq<Hinted>, p: spec_fn(Hinted) -> bool, h: Hinted)
    ensures
        hinted.filter(p).contains(h) <==> hinted.contains(h) && p(h),
{
    crate::maps::what_a_filter_keeps(hinted, p, h);
}

/// The feedback for a hint starts with what is to be scanned out on the hinted
/// device: formats hinted, imported by the shell and known, all of them. What
/// the shell imports for its own device comes after.
pub proof fn the_scanout_tranche_comes_first(
    tranches: Seq<Tranche>,
    main: u64,
    dev: u64,
    imported: Seq<FormatModifier>,
    hinted: Seq<FormatModifier>,
    f: FormatModifier,
)
    requires
        feedback_for(tranches, main, dev, imported, hinted),
    ensures
        tranches.len() == 2,
        tranches[0].dev == dev,
        tranches[0].scanout,
        tranches[0].formats@.contains(f) <==> hinted.contains(f) && imported.contains(f)
            && crate::dmabuf::drm_format_known(f.fourcc),
        tranches[1].dev == main,
        !tranches[1].scanout,
        tranches[1].formats@.contains(f) <==> imported.contains(f)
            && crate::dmabuf::drm_format_known(f.fourcc),
{
    a_tranche_is_importable(imported, hinted, f);
    crate::dmabuf::only_known_formats_are_offered(tranche_of(imported, hinted), imported, f);
    crate::dmabuf::only_known_formats_are_offered(imported, hinted, f);
}

/// The hinted order is kept in the tranche.
pub proof fn the_hinted_order_is_kept(
    imported: Seq<FormatModifier>,
    a: Seq<FormatModifier>,
    b: Seq<FormatModifier>,
)
    ensures
        tranche_of(imported, a + b) == tranche_of(imported, a) + tranche_of(imported, b),
        (forall|i: int| 0 <= i < a.len() ==> imported.contains(#[trigger] a[i])) ==> tranche_of(
            imported,
            a,
        ) == a,
    decreases a.len(),
{
    Seq::filter_distributes_over_add(a, b, imported_by(imported));
    if forall|i: int| 0 <= i < a.len() ==> imported.contains(#[trigger] a[i]) {
        reveal(Seq::filter);
        if a.len() > 0 {
            let d = a.drop_last();
            assert forall|i: int| 0 <= i < d.len() implies imported.contains(#[trigger] d[i]) by {
                assert(d[i] == a[i]);
            }
            the_hinted_order_is_kept(imported, d, b);
            assert(imported.contains(a[a.len() - 1]));
            assert(d.push(a.last()) =~= a);
        }
    }
}

/// The feedback last built is used again for a hint of the same device and the
/// same formats in the same order, and for no other.
pub proof fn when_feedback_is_used_again(
    last: Option<Built>,
    dev: u64,
    formats: Seq<FormatModifier>,
)
    ensures
        built_for(last, dev, formats) <==> last is Some && last->0.dev == dev
            && last->0.hinted@ == formats,
{
}

/// A layer's surface is the first drawn that has its id.
pub proof fn a_layer_is_the_first_of_its_id(
    scene: Seq<(u64, Option<u32>)>,
    layer_id: u32,
    i: int,
)
    ensures
        0 <= i < scene.len() && scene[i].1 == Some(layer_id) && (forall|j: int|
            0 <= j < i ==> (#[trigger] scene[j]).1 != Some(layer_id)) ==> layer_in(scene, layer_id)
            == Some(scene[i].0),
        (forall|j: int| 0 <= j < scene.len() ==> (#[trigger] scene[j]).1 != Some(layer_id))
            ==> layer_in(scene, layer_id) is None,
    decreases scene.len(),
{
    if scene.len() > 0 {
        let d = scene.drop_last();
        a_layer_is_the_first_of_its_id(d, layer_id, i);
        assert forall|j: int| 0 <= j < d.len() implies #[trigger] d[j] == scene[j] by {}
        if 0 <= i < scene.len() && scene[i].1 == Some(layer_id) && (forall|j: int|
            0 <= j < i ==> (#[trigger] scene[j]).1 != Some(layer_id)) {
            assert forall|j: int| 0 <= j < i && j < d.len() implies (#[trigger] d[j]).1 != Some(
                layer_id,
            ) by {
                assert(scene[j].1 != Some(layer_id));
            }
        }
        if forall|j: int| 0 <= j < scene.len() ==> (#[trigger] scene[j]).1 != Some(layer_id) {
            assert forall|j: int| 0 <= j < d.len() implies (#[trigger] d[j]).1 != Some(
                layer_id,
            ) by {
                assert(scene[j].1 != Some(layer_id));
            }
        }
    }
}

/// A view that no longer shows its surfaces sends each of them that had a
/// tranche the default feedback, and no other.
pub proof fn a_hidden_views_surfaces_get_the_default(hinted: Seq<Hinted>, view: i32, surface: u64)
    ensures
        defaults(hinted.filter(of_view(view))).contains(Action::DefaultFeedback(surface))
            <==> hinted.contains(Hinted { surface, view }),
{
    let gone = hinted.filter(of_view(view));
    let acts = defaults(gone);
    let h = Hinted { surface, view };
    crate::maps::what_a_filter_keeps(hinted, of_view(view), h);
    if gone.contains(h) {
        let i = choose|i: int| 0 <= i < gone.len() && gone[i] == h;
        assert(acts[i] == Action::DefaultFeedback(surface));
    }
    if acts.contains(Action::DefaultFeedback(surface)) {
        let i = choose|i: int| 0 <= i < acts.len() && acts[i] == Action::DefaultFeedback(surface);
        hinted.lemma_filter_pred(of_view(view), i);
        assert(gone[i] == h);
        assert(gone.contains(h));
    }
}

/// A surface has a tranche where it has one for being shown in some view.
pub proof fn when_a_surface_has_a_tranche(hinted: Seq<Hinted>, surface: u64)
    ensures
        has_tranche(hinted, surface) <==> exists|view: i32|
            hinted.contains(Hinted { surface, view }),
{
    if has_tranche(hinted, surface) {
        let i = choose|i: int| 0 <= i < hinted.len() && (#[trigger] hinted[i]).surface == surface;
        assert(hinted[i] == (Hinted { surface, view: hinted[i].view }));
        assert(hinted.contains(Hinted { surface, view: hinted[i].view }));
    }
    if exists|view: i32| hinted.contains(Hinted { surface, view }) {
        let view = choose|view: i32| hinted.contains(Hinted { surface, view });
        let i = choose|i: int| 0 <= i < hinted.len() && hinted[i] == (Hinted { surface, view });
        assert(hinted[i].surface == surface);
    }
}

} // verus!
