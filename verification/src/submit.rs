//! Handing a view's layers to the shell.
//!
//! A submit takes two steps with the shell's answer between them. Before it,
//! each layer's buffer gets the id the shell knows it by, up to the first layer
//! that cannot be described, and the frame its number. After it, an accepted frame's buffers are held until the shell is
//! done with them, and its feedback and barriers wait for its report; of one
//! that was not, nothing will be shown.

use vstd::prelude::*;

use crate::action::Action;
use crate::buffers::{BufferKey, IdsModel};
use crate::holds::HoldsModel;
use crate::reports::stale_after;
use crate::staging::Ring;
use crate::state::{State, StateModel, Step, ViewModel};
use crate::timing::{FrameModel, Taken, STALE_NS};

verus! {

broadcast use vstd::laws_cmp::group_laws_cmp;

/// Layers the shell takes in one frame.
pub const MAX_LAYERS: usize = 32;

/// A layer of a view, bottom to top in its scene.
#[derive(Clone, Copy, Debug, PartialEq, Eq, Structural)]
pub struct Layer {
    /// Stable for the surface's life, so a layer keeps its plane while the
    /// tree around it changes.
    pub layer_id: u32,
    /// What its buffer id is keyed by, and held until the shell is done.
    pub key: BufferKey,
    /// The surface's content generation, to match presentation feedback.
    pub generation: u64,
}

/// What the shell handed back for a layer.
#[derive(Clone, Copy, Debug, PartialEq, Eq, Structural)]
pub enum Fence {
    /// No release fence.
    Absent,
    /// A fence that is being watched, by this key.
    Watched(u64),
    /// A fence that could not be watched.
    Unwatched,
}

/// A frame to hand to the shell: its number, and the buffer id of each layer.
/// One that is not complete is not handed over.
#[derive(Debug, PartialEq)]
pub struct Submission {
    pub seq: u64,
    pub ids: Vec<u32>,
    pub complete: bool,
}

/// The layers the shell takes of a scene's: the bottom ones.
pub open spec fn taken_layers(layers: Seq<Layer>) -> Seq<Layer> {
    if layers.len() > MAX_LAYERS {
        layers.take(MAX_LAYERS as int)
    } else {
        layers
    }
}

/// The layers whose buffers get an id when `described` of them, from the
/// bottom, could be described: those, and the one that could not.
pub open spec fn numbered_layers(layers: Seq<Layer>, described: int) -> Seq<Layer> {
    if described < layers.len() {
        layers.take(described + 1)
    } else {
        layers
    }
}

/// The buffer ids of `layers` in turn, and what the ids then are.
pub open spec fn numbering(ids: IdsModel, v: i32, layers: Seq<Layer>) -> (IdsModel, Seq<u32>)
    decreases layers.len(),
{
    if layers.len() == 0 {
        (ids, Seq::empty())
    } else {
        let before = numbering(ids, v, layers.drop_last());
        let key = layers.last().key;
        (before.0.with_id(key, v), before.1.push(before.0.id_of(key)))
    }
}

/// The content that `layers` show, as frames list it.
pub open spec fn contents(layers: Seq<Layer>) -> Seq<(u32, u64)> {
    layers.map_values(|l: Layer| (l.layer_id, l.generation))
}

/// The holds once the buffers of `layers` are held for frame `seq`, and what
/// goes back at once.
pub open spec fn holding(
    holds: HoldsModel,
    layers: Seq<Layer>,
    fences: Seq<Fence>,
    seq: u64,
) -> (HoldsModel, Seq<Action>)
    decreases layers.len(),
{
    if layers.len() == 0 {
        (holds, Seq::empty())
    } else {
        let before = holding(holds, layers.drop_last(), fences, seq);
        let key = layers.last().key;
        match fences[layers.len() - 1] {
            Fence::Absent => (
                before.0.with_unfenced(seq, key),
                before.1 + before.0.unfenced_drops(seq, key),
            ),
            Fence::Watched(k) => (before.0.with_fenced(k, key), before.1),
            Fence::Unwatched => (before.0, before.1.push(crate::holds::dropped(key))),
        }
    }
}

/// The dropping of the hold of each of `layers`.
pub open spec fn layer_drops(layers: Seq<Layer>) -> Seq<Action> {
    layers.map_values(|l: Layer| crate::holds::dropped(l.key))
}

impl StateModel {
    /// Whether view `v` has `layers` to submit.
    pub open spec fn can_submit(self, v: i32, layers: Seq<Layer>) -> bool {
        &&& self.shown_by(v) is Some
        &&& self.toplevels.contains_key(self.shown_by(v)->0)
        &&& layers.len() > 0
    }

    /// The frame of `layers` that view `v` submits.
    pub open spec fn frame_of(
        self,
        v: i32,
        layers: Seq<Layer>,
        taken: Taken,
        now: u64,
    ) -> FrameModel {
        FrameModel {
            seq: (self.views[v].seq + 1) as u64,
            submitted_ns: now,
            shown: contents(layers),
            feedback: crate::timing::seen(taken.feedback@, contents(layers)),
            barriers: taken.barriers@,
        }
    }

    /// The shell took the frame of `layers`.
    pub open spec fn accepting(
        self,
        v: i32,
        layers: Seq<Layer>,
        fences: Seq<Fence>,
        taken: Taken,
        now: u64,
    ) -> Step {
        let view = self.views[v];
        let frame = self.frame_of(v, layers, taken, now);
        let held = holding(view.holds, layers, fences, frame.seq);
        let gone = crate::timing::displaced(view.frames);
        let next = self.put_view(
            v,
            ViewModel {
                seq: frame.seq,
                cleared: false,
                holds: held.0,
                frames: crate::timing::with_frame(view.frames, frame),
                answer: match view.answer {
                    Some(at) => Some(at),
                    None => Some(stale_after(now)),
                },
                ..view
            },
        );
        let last = next.watching_frames(v, now);
        (
            last.0,
            held.1 + crate::timing::discards(
                crate::timing::unseen(taken.feedback@, contents(layers)),
            ) + crate::timing::all_unshown(gone) + self.freed_client(
                v,
                crate::timing::any_barrier(gone),
            ).map_values(|c: u64| Action::Unblock(c)) + last.1,
        )
    }

    /// The frame of `layers` was not taken: nothing of it will be shown. Its
    /// frame callbacks are answered at the next refresh.
    pub open spec fn refusing(self, v: i32, layers: Seq<Layer>, taken: Taken, now: u64) -> Step {
        let view = self.views[v];
        let client = self.client_of(v);
        let next = self.put_view(
            v,
            ViewModel {
                answer: crate::pacing::sooner(
                    view.answer,
                    Some(self.pacing.refresh_after(now)),
                ),
                ..view
            },
        ).paced(self.pacing.holding_loose(client, taken.barriers@, now));
        let last = next.ticking_at(next.answer_due(v));
        (
            last.0,
            layer_drops(layers) + crate::timing::discards(taken.feedback@)
                + self.pacing.loose_actions(client, taken.barriers@, now) + last.1,
        )
    }

    /// The views among `views` that are still there drop their import of a
    /// buffer.
    pub open spec fn retirements(self, views: Seq<i32>, buffer_id: u32) -> Seq<Action>
        decreases views.len(),
    {
        if views.len() == 0 {
            Seq::empty()
        } else {
            let before = self.retirements(views.drop_last(), buffer_id);
            if self.views.contains_key(views.last()) {
                before.push(Action::Retire { view_id: views.last(), buffer_id })
            } else {
                before
            }
        }
    }

    /// The buffer `key` is gone: every view it was shown in drops its import.
    pub open spec fn retiring(self, key: BufferKey) -> Step {
        if self.buffers.by_buffer.contains_key(key) {
            let e = self.buffers.by_buffer[key];
            (
                StateModel { buffers: self.buffers.destroyed(key), ..self },
                self.retirements(e.views, e.id),
            )
        } else {
            (self, Seq::empty())
        }
    }

    /// Whether a view's holds keep the staging slot `uid` from reuse.
    pub open spec fn slot_in_use(self, uid: u64) -> bool {
        exists|v: i32| #[trigger]
            self.views.contains_key(v) && self.views[v].holds.holds_slot(uid)
    }
}

impl State {
    /// Start handing the view's scene, as it now stands, to the shell: the
    /// frame to hand over, with the bottom layers where the shell does not
    /// take as many. None when there is nothing to show. `described` is how
    /// many layers, from the bottom, have their planes' fds duplicated: past
    /// the first that does not, no buffer is numbered.
    pub fn submit_begin(
        &mut self,
        view_id: i32,
        layers: &Vec<Layer>,
        described: usize,
    ) -> (s: Option<Submission>)
        requires
            old(self)@.wf(),
            old(self)@.views.contains_key(view_id) ==> old(self)@.views[view_id].seq < u64::MAX,
        ensures
            final(self)@.wf(),
            match s {
                Some(s) => {
                    let taken = taken_layers(layers@);
                    let n = numbering(
                        old(self)@.buffers,
                        view_id,
                        numbered_layers(taken, described as int),
                    );
                    &&& old(self)@.can_submit(view_id, layers@)
                    &&& s.seq == old(self)@.views[view_id].seq + 1
                    &&& s.complete == (described >= taken.len())
                    &&& s.ids@ == n.1
                    &&& final(self)@ == (StateModel { buffers: n.0, ..old(self)@ })
                },
                None => !old(self)@.can_submit(view_id, layers@) && final(self)@ == old(self)@,
            },
    {
        let seq: u64 = match self.views.get(&view_id) {
            Some(view) => {
                match view.toplevel {
                    Some(t) => {
                        if !self.toplevels.contains_key(&t) {
                            return None;
                        }
                    },
                    None => {
                        return None;
                    },
                }
                view.seq + 1
            },
            None => {
                return None;
            },
        };
        if layers.len() == 0 {
            return None;
        }
        let most: usize = if layers.len() > MAX_LAYERS {
            MAX_LAYERS
        } else {
            layers.len()
        };
        let complete: bool = described >= most;
        let n: usize = if complete {
            most
        } else {
            described + 1
        };
        let ghost all = numbered_layers(taken_layers(layers@), described as int);
        assert(taken_layers(layers@) == layers@.take(most as int));
        assert(all == layers@.take(n as int));
        let ghost start = self@.buffers;
        let mut ids: Vec<u32> = Vec::new();
        let mut i: usize = 0;
        assert(all.take(0) == Seq::<Layer>::empty());
        while i < n
            invariant
                i <= n <= layers.len(),
                all == layers@.take(n as int),
                start == old(self)@.buffers,
                self@ == (StateModel { buffers: self@.buffers, ..old(self)@ }),
                self@.buffers == numbering(start, view_id, all.take(i as int)).0,
                ids@ == numbering(start, view_id, all.take(i as int)).1,
            decreases n - i,
        {
            proof {
                assert(all.take(i + 1).drop_last() == all.take(i as int));
                assert(all.take(i + 1).last() == layers@[i as int]);
            }
            let id: u32 = self.buffers.id_for(layers[i].key, view_id);
            ids.push(id);
            assert(self@ =~= (StateModel { buffers: self@.buffers, ..old(self)@ }));
            i += 1;
        }
        assert(all.take(i as int) == all);
        Some(Submission { seq, ids, complete })
    }

    /// The shell took the frame: hold its buffers, and keep what waits on the
    /// screen for its report. `fences` is what it handed back for each layer.
    pub fn submit_accepted(
        &mut self,
        view_id: i32,
        layers: &Vec<Layer>,
        fences: &Vec<Fence>,
        taken: Taken,
        now_ns: u64,
        out: &mut Vec<Action>,
    )
        requires
            old(self)@.wf(),
            old(self)@.views.contains_key(view_id),
            old(self)@.views[view_id].seq < u64::MAX,
            fences@.len() == layers@.len(),
            now_ns < u64::MAX,
        ensures
            final(self)@ == old(self)@.accepting(view_id, layers@, fences@, taken, now_ns).0,
            final(self)@.wf(),
            final(out)@ == old(out)@ + old(self)@.accepting(
                view_id,
                layers@,
                fences@,
                taken,
                now_ns,
            ).1,
    {
        let ghost start = out@;
        let ghost s = self@;
        let client = self.view_client(view_id);
        let mut released: bool = false;
        if let Some(mut view) = self.views.remove(&view_id) {
            let ghost was = view@;
            let seq: u64 = view.seq + 1;
            view.seq = seq;
            view.cleared = false;
            let mut shown: Vec<(u32, u64)> = Vec::new();
            let mut i: usize = 0;
            assert(layers@.take(0) == Seq::<Layer>::empty());
            assert(contents(layers@.take(0)) == Seq::<(u32, u64)>::empty());
            assert(out@ == start + Seq::<Action>::empty());
            while i < layers.len()
                invariant
                    i <= layers.len(),
                    fences@.len() == layers@.len(),
                    view.holds@.wf(),
                    view@ == (ViewModel { seq, cleared: false, holds: view.holds@, ..was }),
                    shown@ == contents(layers@.take(i as int)),
                    view.holds@ == holding(
                        was.holds,
                        layers@.take(i as int),
                        fences@,
                        seq,
                    ).0,
                    out@ == start + holding(was.holds, layers@.take(i as int), fences@, seq).1,
                decreases layers.len() - i,
            {
                let layer = layers[i];
                proof {
                    assert(layers@.take(i + 1).drop_last() == layers@.take(i as int));
                    assert(layers@.take(i + 1) == layers@.take(i as int).push(layer));
                    assert(contents(layers@.take(i + 1)) == contents(layers@.take(i as int)).push(
                        (layer.layer_id, layer.generation),
                    ));
                }
                match fences[i] {
                    Fence::Absent => view.holds.hold_unfenced(seq, layer.key, out),
                    Fence::Watched(key) => view.holds.hold_fenced(key, layer.key, true, out),
                    Fence::Unwatched => view.holds.hold_fenced(0, layer.key, false, out),
                }
                shown.push((layer.layer_id, layer.generation));
                assert(view@ =~= (ViewModel { seq, cleared: false, holds: view.holds@, ..was }));
                i += 1;
            }
            assert(layers@.take(i as int) == layers@);
            released = view.frames.push(seq, now_ns, shown, taken, out);
            if view.answer.is_none() {
                view.answer = Some(now_ns.saturating_add(STALE_NS));
            }
            self.views.insert(view_id, view);
        }
        let ghost frame = s.frame_of(view_id, layers@, taken, now_ns);
        let ghost view = s.views[view_id];
        let ghost held = holding(view.holds, layers@, fences@, frame.seq);
        let ghost next = s.put_view(
            view_id,
            ViewModel {
                seq: frame.seq,
                cleared: false,
                holds: held.0,
                frames: crate::timing::with_frame(view.frames, frame),
                answer: match view.answer {
                    Some(at) => Some(at),
                    None => Some(stale_after(now_ns)),
                },
                ..view
            },
        );
        proof {
            assert(self@.views =~= next.views);
            assert(self@ =~= next);
            crate::state::view_edits_keep_wf(s, view_id, next.views[view_id]);
        }
        if released {
            if let Some(client) = client {
                out.push(Action::Unblock(client));
            }
        }
        self.watch_frames(view_id, now_ns, out);
        assert(out@ =~= start + s.accepting(view_id, layers@, fences@, taken, now_ns).1);
    }

    /// The frame was not taken: the shell refused it, or it could not be put
    /// together.
    pub fn submit_refused(
        &mut self,
        view_id: i32,
        layers: &Vec<Layer>,
        taken: Taken,
        now_ns: u64,
        out: &mut Vec<Action>,
    )
        requires
            old(self)@.wf(),
            old(self)@.views.contains_key(view_id),
            now_ns < u64::MAX,
        ensures
            final(self)@ == old(self)@.refusing(view_id, layers@, taken, now_ns).0,
            final(self)@.wf(),
            final(out)@ == old(out)@ + old(self)@.refusing(view_id, layers@, taken, now_ns).1,
    {
        let ghost start = out@;
        let ghost s = self@;
        let mut i: usize = 0;
        assert(layer_drops(layers@.take(0)) == Seq::<Action>::empty());
        while i < layers.len()
            invariant
                i <= layers.len(),
                out@ == start + layer_drops(layers@.take(i as int)),
            decreases layers.len() - i,
        {
            proof {
                assert(layers@.take(i + 1) == layers@.take(i as int).push(layers@[i as int]));
                assert(layer_drops(layers@.take(i + 1)) == layer_drops(
                    layers@.take(i as int),
                ).push(crate::holds::dropped(layers@[i as int].key)));
            }
            match layers[i].key {
                BufferKey::Client(b) => out.push(Action::ReleaseBuffer(b)),
                BufferKey::Staged(uid) => out.push(Action::ReleaseSlot(uid)),
            }
            i += 1;
        }
        assert(layers@.take(i as int) == layers@);
        let client = self.view_client(view_id);
        let refresh: u64 = self.pacing.next_refresh(now_ns);
        let barriers = taken.not_shown(out);
        self.pacing.hold_loose(client, &barriers, now_ns, out);
        let mut answer: Option<u64> = None;
        if let Some(mut view) = self.views.remove(&view_id) {
            view.answer = crate::pacing::sooner_of(view.answer, Some(refresh));
            if !view.suspended {
                answer = view.answer;
            }
            self.views.insert(view_id, view);
        }
        proof {
            let view = ViewModel {
                answer: crate::pacing::sooner(s.views[view_id].answer, Some(refresh)),
                ..s.views[view_id]
            };
            let next = s.put_view(view_id, view).paced(
                s.pacing.holding_loose(client, taken.barriers@, now_ns),
            );
            assert(self@.views =~= next.views);
            assert(self@ =~= next);
            crate::state::view_edits_keep_wf(s, view_id, view);
            assert(next.wf());
        }
        self.tick_at(answer, out);
        assert(out@ =~= start + s.refusing(view_id, layers@, taken, now_ns).1);
    }

    /// A key for a release fence of the view that is about to be watched.
    pub fn fence_key(&mut self, view_id: i32) -> (key: u64)
        requires
            old(self)@.wf(),
            old(self)@.views.contains_key(view_id),
            old(self)@.views[view_id].holds.last_key < u64::MAX,
        ensures
            key == old(self)@.views[view_id].holds.last_key + 1,
            final(self)@ == old(self)@.put_view(
                view_id,
                (ViewModel {
                    holds: (HoldsModel { last_key: key, ..old(self)@.views[view_id].holds }),
                    ..old(self)@.views[view_id]
                }),
            ),
            final(self)@.wf(),
    {
        let mut key: u64 = 0;
        if let Some(mut view) = self.views.remove(&view_id) {
            key = view.holds.fence_key();
            self.views.insert(view_id, view);
        }
        proof {
            let was = old(self)@.views[view_id];
            let view = ViewModel { holds: HoldsModel { last_key: key, ..was.holds }, ..was };
            let next = old(self)@.put_view(view_id, view);
            assert(self@.views =~= next.views);
            assert(self@ =~= next);
            crate::state::view_edits_keep_wf(old(self)@, view_id, view);
        }
        key
    }

    /// A release fence of the view signaled: the shell is done with what it
    /// held.
    pub fn fence_signaled(&mut self, view_id: i32, key: u64, out: &mut Vec<Action>)
        requires
            old(self)@.wf(),
        ensures
            final(self)@.wf(),
            if old(self)@.views.contains_key(view_id) {
                let view = old(self)@.views[view_id];
                &&& final(self)@ == old(self)@.put_view(
                    view_id,
                    (ViewModel { holds: view.holds.signaled(key), ..view }),
                )
                &&& final(out)@ == old(out)@ + crate::holds::drops(
                    view.holds.fenced.filter(crate::holds::with_key(key)),
                )
            } else {
                final(self)@ == old(self)@ && final(out)@ == old(out)@
            },
    {
        if let Some(mut view) = self.views.remove(&view_id) {
            view.holds.fence_signaled(key, out);
            self.views.insert(view_id, view);
        }
        proof {
            if old(self)@.views.contains_key(view_id) {
                let was = old(self)@.views[view_id];
                let view = ViewModel { holds: was.holds.signaled(key), ..was };
                let next = old(self)@.put_view(view_id, view);
                assert(self@.views =~= next.views);
                assert(self@ =~= next);
                crate::state::view_edits_keep_wf(old(self)@, view_id, view);
            } else {
                assert(self@.views =~= old(self)@.views);
                assert(self@ =~= old(self)@);
            }
        }
    }

    /// A buffer is gone (its client destroyed it, or its staging slot was
    /// dropped): every view it was shown in drops its import of it.
    pub fn retire_key(&mut self, key: BufferKey, out: &mut Vec<Action>)
        requires
            old(self)@.wf(),
        ensures
            final(self)@ == old(self)@.retiring(key).0,
            final(self)@.wf(),
            final(out)@ == old(out)@ + old(self)@.retiring(key).1,
    {
        let ghost start = out@;
        let ghost s = self@;
        let (buffer_id, views) = match self.buffers.destroyed(key) {
            Some(gone) => gone,
            None => {
                assert(self@.buffers.by_buffer =~= s.buffers.by_buffer);
                assert(self@ =~= s);
                assert(out@ == start + Seq::<Action>::empty());
                return;
            },
        };
        assert(self@ =~= s.retiring(key).0);
        let mut i: usize = 0;
        assert(views@.take(0) == Seq::<i32>::empty());
        while i < views.len()
            invariant
                i <= views.len(),
                self@ == s.retiring(key).0,
                self@.views == s.views,
                out@ == start + s.retirements(views@.take(i as int), buffer_id),
            decreases views.len() - i,
        {
            assert(views@.take(i + 1).drop_last() == views@.take(i as int));
            if self.views.contains_key(&views[i]) {
                out.push(Action::Retire { view_id: views[i], buffer_id });
            }
            i += 1;
        }
        assert(views@.take(i as int) == views@);
    }

    /// Whether the shell may still read the staging slot `uid`.
    pub fn slot_held(&self, uid: u64) -> (yes: bool)
        ensures
            yes == self@.slot_in_use(uid),
    {
        let keys = crate::maps::keys_of(&self.views);
        let mut i: usize = 0;
        while i < keys.len()
            invariant
                i <= keys.len(),
                crate::maps::lists(keys@, self.views@.dom()),
                forall|j: int|
                    0 <= j < i ==> !self@.views[#[trigger] keys@[j]].holds.holds_slot(uid),
            decreases keys.len() - i,
        {
            let v: i32 = keys[i];
            proof {
                assert(keys@.contains(v));
                assert(self.views@.dom().contains(v));
            }
            if let Some(view) = self.views.get(&v) {
                if view.holds.holds_slot(uid) {
                    assert(self@.views.contains_key(v));
                    return true;
                }
            }
            i += 1;
        }
        proof {
            assert forall|v: i32| #[trigger]
                self@.views.contains_key(v) implies !self@.views[v].holds.holds_slot(uid) by {
                assert(self.views@.dom().contains(v));
                assert(keys@.contains(v));
                let j = choose|j: int| 0 <= j < keys@.len() && keys@[j] == v;
                assert(!self@.views[keys@[j]].holds.holds_slot(uid));
            }
        }
        false
    }

    /// The slots of `ring` that the shell may still read.
    pub fn busy_slots(&self, ring: &Ring) -> (busy: Vec<u64>)
        ensures
            forall|i: int|
                0 <= i < ring.slots@.len() ==> (busy@.contains((#[trigger] ring.slots@[i]).uid)
                    <==> self@.slot_in_use(ring.slots@[i].uid)),
            forall|i: int| 0 <= i < busy@.len() ==> self@.slot_in_use(#[trigger] busy@[i]),
    {
        let mut busy: Vec<u64> = Vec::new();
        let mut i: usize = 0;
        while i < ring.slots.len()
            invariant
                i <= ring.slots.len(),
                forall|k: int| 0 <= k < busy@.len() ==> self@.slot_in_use(#[trigger] busy@[k]),
                forall|k: int|
                    0 <= k < i && self@.slot_in_use((#[trigger] ring.slots@[k]).uid)
                        ==> busy@.contains(ring.slots@[k].uid),
            decreases ring.slots.len() - i,
        {
            let uid: u64 = ring.slots[i].uid;
            let ghost before = busy@;
            if self.slot_held(uid) {
                busy.push(uid);
                proof {
                    assert forall|k: int|
                        0 <= k < i && self@.slot_in_use(
                            (#[trigger] ring.slots@[k]).uid,
                        ) implies busy@.contains(ring.slots@[k].uid) by {
                        let n = choose|n: int|
                            0 <= n < before.len() && before[n] == ring.slots@[k].uid;
                        assert(busy@[n] == ring.slots@[k].uid);
                    }
                    assert(busy@[before.len() as int] == uid);
                }
            }
            i += 1;
        }
        busy
    }
}

} // verus!
