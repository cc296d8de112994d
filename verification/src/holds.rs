//! Getting the buffers back from the shell.
//!
//! Each layer handed to the shell holds its buffer until the shell is done
//! with it. The last hold dropped is what gives a client its buffer back, so
//! a buffer shown by several layers or several frames goes back only once all
//! of them are finished.
//!
//! The shell says it is done in one of two ways. A layer handed back a release
//! fence is held until the fence signals. One handed back none is held until
//! the shell reports a later frame of the view on screen: by then it has
//! stopped reading the earlier one.

use vstd::multiset::Multiset;
use vstd::prelude::*;

use crate::action::Action;
use crate::buffers::BufferKey;

verus! {

/// Buffers held without a fence, per view, before the oldest goes back.
pub const MAX_UNFENCED: usize = 64;

/// Buffers the shell may still be reading, for one view.
#[derive(Debug)]
pub struct Holds {
    pub last_key: u64,
    /// Held until their release fence signals, by the fence's key.
    pub fenced: Vec<(u64, BufferKey)>,
    /// Held until a frame after the one that carried them is shown: the
    /// number of that frame, and the buffer.
    pub unfenced: Vec<(u64, BufferKey)>,
}

/// A view's holds, as plain values.
#[verifier::ext_equal]
pub struct HoldsModel {
    pub last_key: u64,
    pub fenced: Seq<(u64, BufferKey)>,
    pub unfenced: Seq<(u64, BufferKey)>,
}

impl View for Holds {
    type V = HoldsModel;

    open spec fn view(&self) -> HoldsModel {
        HoldsModel { last_key: self.last_key, fenced: self.fenced@, unfenced: self.unfenced@ }
    }
}

/// The dropping of one hold.
pub open spec fn dropped(held: BufferKey) -> Action {
    match held {
        BufferKey::Client(b) => Action::ReleaseBuffer(b),
        BufferKey::Staged(uid) => Action::ReleaseSlot(uid),
    }
}

/// The dropping of each of `holds`.
pub open spec fn drops(holds: Seq<(u64, BufferKey)>) -> Seq<Action> {
    holds.map_values(|h: (u64, BufferKey)| dropped(h.1))
}

/// The end of the watch on each fence of `fenced`, and its hold's.
pub open spec fn unwatched(view_id: i32, fenced: Seq<(u64, BufferKey)>) -> Seq<Action> {
    fenced.flat_map(
        |h: (u64, BufferKey)| seq![Action::DropFence { view_id, key: h.0 }, dropped(h.1)],
    )
}

/// Holds on another buffer than `held`.
pub open spec fn not_on(held: BufferKey) -> spec_fn((u64, BufferKey)) -> bool {
    |h: (u64, BufferKey)| h.1 != held
}

/// Holds on `held`.
pub open spec fn on(held: BufferKey) -> spec_fn((u64, BufferKey)) -> bool {
    |h: (u64, BufferKey)| h.1 == held
}

/// Holds of frame `seq` or a later one.
pub open spec fn from_frame(seq: u64) -> spec_fn((u64, BufferKey)) -> bool {
    |h: (u64, BufferKey)| h.0 >= seq
}

/// Holds of frames before `seq`.
pub open spec fn before_frame(seq: u64) -> spec_fn((u64, BufferKey)) -> bool {
    |h: (u64, BufferKey)| h.0 < seq
}

/// Holds with another key than `key`.
pub open spec fn not_key(key: u64) -> spec_fn((u64, BufferKey)) -> bool {
    |h: (u64, BufferKey)| h.0 != key
}

/// Holds with the key `key`.
pub open spec fn with_key(key: u64) -> spec_fn((u64, BufferKey)) -> bool {
    |h: (u64, BufferKey)| h.0 == key
}

impl HoldsModel {
    pub open spec fn empty() -> HoldsModel {
        HoldsModel { last_key: 0, fenced: Seq::empty(), unfenced: Seq::empty() }
    }

    /// No more is held without a fence than is allowed, and no buffer twice.
    pub open spec fn wf(self) -> bool {
        &&& self.unfenced.len() <= MAX_UNFENCED
        &&& forall|i: int, j: int|
            0 <= i < j < self.unfenced.len() ==> self.unfenced[i].1 != self.unfenced[j].1
    }

    /// The holds once `held` is held until the fence `key` signals.
    pub open spec fn with_fenced(self, key: u64, held: BufferKey) -> HoldsModel {
        HoldsModel { fenced: self.fenced.push((key, held)), ..self }
    }

    /// Held without a fence once `held` is held for frame `seq`, before the
    /// bound is applied: a buffer submitted again is held for the later frame
    /// only.
    pub open spec fn rehold(self, seq: u64, held: BufferKey) -> Seq<(u64, BufferKey)> {
        self.unfenced.filter(not_on(held)).push((seq, held))
    }

    /// The holds once `held` is held for frame `seq`. Past the bound the
    /// oldest goes back: a shell that has not presented anything in this many
    /// frames is not reading them.
    pub open spec fn with_unfenced(self, seq: u64, held: BufferKey) -> HoldsModel {
        let all = self.rehold(seq, held);
        HoldsModel {
            unfenced: if all.len() > MAX_UNFENCED {
                all.drop_first()
            } else {
                all
            },
            ..self
        }
    }

    /// What `with_unfenced` gives back.
    pub open spec fn unfenced_drops(self, seq: u64, held: BufferKey) -> Seq<Action> {
        let all = self.rehold(seq, held);
        drops(self.unfenced.filter(on(held))) + if all.len() > MAX_UNFENCED {
            drops(all.take(1))
        } else {
            Seq::empty()
        }
    }

    /// The holds once frame `seq` is on screen.
    pub open spec fn shown(self, seq: u64) -> HoldsModel {
        HoldsModel { unfenced: self.unfenced.filter(from_frame(seq)), ..self }
    }

    /// The holds once the fence `key` signaled.
    pub open spec fn signaled(self, key: u64) -> HoldsModel {
        HoldsModel { fenced: self.fenced.filter(not_key(key)), ..self }
    }

    /// The holds once everything was given back.
    pub open spec fn cleared(self) -> HoldsModel {
        HoldsModel { fenced: Seq::empty(), unfenced: Seq::empty(), ..self }
    }

    /// How often each buffer is held.
    pub open spec fn count(self) -> Multiset<Action> {
        drops(self.fenced).to_multiset().add(drops(self.unfenced).to_multiset())
    }

    /// Whether the staging slot `uid` is held.
    pub open spec fn holds_slot(self, uid: u64) -> bool {
        ||| exists|i: int|
            0 <= i < self.fenced.len() && (#[trigger] self.fenced[i]).1 == BufferKey::Staged(uid)
        ||| exists|i: int|
            0 <= i < self.unfenced.len() && (#[trigger] self.unfenced[i]).1 == BufferKey::Staged(
                uid,
            )
    }
}

fn drop_action(held: BufferKey) -> (a: Action)
    ensures
        a == dropped(held),
{
    match held {
        BufferKey::Client(b) => Action::ReleaseBuffer(b),
        BufferKey::Staged(uid) => Action::ReleaseSlot(uid),
    }
}

proof fn nothing_filtered(p: spec_fn((u64, BufferKey)) -> bool)
    ensures
        Seq::<(u64, BufferKey)>::empty().filter(p) == Seq::<(u64, BufferKey)>::empty(),
        drops(Seq::empty()) == Seq::<Action>::empty(),
{
    reveal(Seq::filter);
}

proof fn one_more(
    done: Seq<(u64, BufferKey)>,
    h: (u64, BufferKey),
    keep: spec_fn((u64, BufferKey)) -> bool,
    lose: spec_fn((u64, BufferKey)) -> bool,
)
    ensures
        done.push(h).filter(keep) == if keep(h) {
            done.filter(keep).push(h)
        } else {
            done.filter(keep)
        },
        drops(done.push(h).filter(lose)) == if lose(h) {
            drops(done.filter(lose)).push(dropped(h.1))
        } else {
            drops(done.filter(lose))
        },
{
    done.lemma_filter_push(h, keep);
    done.lemma_filter_push(h, lose);
    assert(drops(done.filter(lose).push(h)) == drops(done.filter(lose)).push(dropped(h.1)));
}

impl Holds {
    pub fn new() -> (holds: Holds)
        ensures
            holds@ == HoldsModel::empty(),
            holds@.wf(),
    {
        Holds { last_key: 0, fenced: Vec::new(), unfenced: Vec::new() }
    }

    /// A key for a fence about to be watched.
    pub fn fence_key(&mut self) -> (key: u64)
        requires
            old(self).last_key < u64::MAX,
        ensures
            key == old(self).last_key + 1,
            final(self)@ == (HoldsModel { last_key: key, ..old(self)@ }),
    {
        self.last_key = self.last_key + 1;
        self.last_key
    }

    /// Hold `held` until the fence `key` signals. Where the fence could not
    /// be watched (`watched` is false) nothing would ever release the buffer:
    /// it is given back now rather than starve the client.
    pub fn hold_fenced(&mut self, key: u64, held: BufferKey, watched: bool, out: &mut Vec<Action>)
        ensures
            final(self)@ == if watched {
                old(self)@.with_fenced(key, held)
            } else {
                old(self)@
            },
            final(out)@ == if watched {
                old(out)@
            } else {
                old(out)@.push(dropped(held))
            },
    {
        if watched {
            self.fenced.push((key, held));
        } else {
            out.push(drop_action(held));
        }
    }

    /// The fence `key` signaled: what it held is free.
    pub fn fence_signaled(&mut self, key: u64, out: &mut Vec<Action>)
        ensures
            final(self)@ == old(self)@.signaled(key),
            final(out)@ == old(out)@ + drops(old(self)@.fenced.filter(with_key(key))),
    {
        let ghost all = self.fenced@;
        let ghost keep = not_key(key);
        let ghost lose = with_key(key);
        let mut kept: Vec<(u64, BufferKey)> = Vec::new();
        let mut i: usize = 0;
        proof {
            assert(all.take(0) == Seq::<(u64, BufferKey)>::empty());
            nothing_filtered(keep);
            nothing_filtered(lose);
        }
        while i < self.fenced.len()
            invariant
                i <= self.fenced.len(),
                self@ == old(self)@,
                all == self.fenced@,
                keep == not_key(key),
                lose == with_key(key),
                kept@ == all.take(i as int).filter(keep),
                out@ == old(out)@ + drops(all.take(i as int).filter(lose)),
            decreases self.fenced.len() - i,
        {
            let h = self.fenced[i];
            proof {
                assert(all.take(i + 1) == all.take(i as int).push(h));
                one_more(all.take(i as int), h, keep, lose);
            }
            if h.0 == key {
                out.push(drop_action(h.1));
            } else {
                kept.push(h);
            }
            i += 1;
        }
        assert(all.take(i as int) == all);
        self.fenced = kept;
    }

    /// Hold `held`, shown in frame `seq`, until a later frame is shown.
    pub fn hold_unfenced(&mut self, seq: u64, held: BufferKey, out: &mut Vec<Action>)
        requires
            old(self)@.wf(),
        ensures
            final(self)@ == old(self)@.with_unfenced(seq, held),
            final(self)@.wf(),
            final(out)@ == old(out)@ + old(self)@.unfenced_drops(seq, held),
    {
        let ghost all = self.unfenced@;
        let ghost keep = not_on(held);
        let ghost lose = on(held);
        let mut kept: Vec<(u64, BufferKey)> = Vec::new();
        let mut i: usize = 0;
        proof {
            assert(all.take(0) == Seq::<(u64, BufferKey)>::empty());
            nothing_filtered(keep);
            nothing_filtered(lose);
        }
        while i < self.unfenced.len()
            invariant
                i <= self.unfenced.len(),
                self@ == old(self)@,
                all == self.unfenced@,
                keep == not_on(held),
                lose == on(held),
                kept@ == all.take(i as int).filter(keep),
                out@ == old(out)@ + drops(all.take(i as int).filter(lose)),
            decreases self.unfenced.len() - i,
        {
            let h = self.unfenced[i];
            proof {
                assert(all.take(i + 1) == all.take(i as int).push(h));
                one_more(all.take(i as int), h, keep, lose);
            }
            if h.1 == held {
                out.push(drop_action(h.1));
            } else {
                kept.push(h);
            }
            i += 1;
        }
        assert(all.take(i as int) == all);
        proof {
            holding_again_keeps_the_bound(self@, seq, held);
        }
        kept.push((seq, held));
        assert(kept@ == old(self)@.rehold(seq, held));
        let ghost whole = kept@;
        if kept.len() > MAX_UNFENCED {
            let oldest = kept.remove(0);
            out.push(drop_action(oldest.1));
            proof {
                assert(kept@ == whole.drop_first());
                assert(drops(whole.take(1)) == seq![dropped(oldest.1)]);
            }
        }
        self.unfenced = kept;
    }

    /// The view's frame `seq` is on screen: what earlier frames held without
    /// a fence is free.
    pub fn presented(&mut self, seq: u64, out: &mut Vec<Action>)
        requires
            old(self)@.wf(),
        ensures
            final(self)@ == old(self)@.shown(seq),
            final(self)@.wf(),
            final(out)@ == old(out)@ + drops(old(self)@.unfenced.filter(before_frame(seq))),
    {
        let ghost all = self.unfenced@;
        let ghost keep = from_frame(seq);
        let ghost lose = before_frame(seq);
        let mut kept: Vec<(u64, BufferKey)> = Vec::new();
        let mut i: usize = 0;
        proof {
            assert(all.take(0) == Seq::<(u64, BufferKey)>::empty());
            nothing_filtered(keep);
            nothing_filtered(lose);
        }
        while i < self.unfenced.len()
            invariant
                i <= self.unfenced.len(),
                self@ == old(self)@,
                all == self.unfenced@,
                keep == from_frame(seq),
                lose == before_frame(seq),
                kept@ == all.take(i as int).filter(keep),
                out@ == old(out)@ + drops(all.take(i as int).filter(lose)),
            decreases self.unfenced.len() - i,
        {
            let h = self.unfenced[i];
            proof {
                assert(all.take(i + 1) == all.take(i as int).push(h));
                one_more(all.take(i as int), h, keep, lose);
            }
            if h.0 < seq {
                out.push(drop_action(h.1));
            } else {
                kept.push(h);
            }
            i += 1;
        }
        assert(all.take(i as int) == all);
        proof {
            filtering_keeps_the_bound(all, keep);
        }
        self.unfenced = kept;
    }

    /// Give everything back: the view is gone or unbound.
    pub fn clear(&mut self, view_id: i32, out: &mut Vec<Action>)
        ensures
            final(self)@ == old(self)@.cleared(),
            final(self)@.wf(),
            final(out)@ == old(out)@ + unwatched(view_id, old(self)@.fenced) + drops(
                old(self)@.unfenced,
            ),
    {
        let ghost g = |h: (u64, BufferKey)|
            seq![Action::DropFence { view_id, key: h.0 }, dropped(h.1)];
        let ghost all = self.fenced@;
        let ghost start = out@;
        let mut i: usize = 0;
        proof {
            assert(all.take(0) == Seq::<(u64, BufferKey)>::empty());
            assert(all.take(0).flat_map(g) == Seq::<Action>::empty()) by {
                reveal(Seq::flatten);
            }
        }
        while i < self.fenced.len()
            invariant
                i <= self.fenced.len(),
                self@ == old(self)@,
                all == self.fenced@,
                start == old(out)@,
                g == (|h: (u64, BufferKey)|
                    seq![Action::DropFence { view_id, key: h.0 }, dropped(h.1)]),
                out@ == start + all.take(i as int).flat_map(g),
            decreases self.fenced.len() - i,
        {
            let h = self.fenced[i];
            proof {
                all.lemma_flat_map_take_append(g, i as int);
            }
            out.push(Action::DropFence { view_id, key: h.0 });
            out.push(drop_action(h.1));
            i += 1;
        }
        assert(all.take(i as int) == all);
        let ghost mid = out@;
        let mut j: usize = 0;
        assert(drops(self.unfenced@.take(0)) == Seq::<Action>::empty());
        while j < self.unfenced.len()
            invariant
                j <= self.unfenced.len(),
                self@ == old(self)@,
                out@ == mid + drops(self.unfenced@.take(j as int)),
            decreases self.unfenced.len() - j,
        {
            let h = self.unfenced[j];
            proof {
                assert(self.unfenced@.take(j + 1) == self.unfenced@.take(j as int).push(h));
                assert(drops(self.unfenced@.take(j + 1)) == drops(
                    self.unfenced@.take(j as int),
                ).push(dropped(h.1)));
            }
            out.push(drop_action(h.1));
            j += 1;
        }
        assert(self.unfenced@.take(j as int) == self.unfenced@);
        self.fenced.clear();
        self.unfenced.clear();
    }

    /// How many holds there are.
    pub fn held(&self) -> (n: usize)
        requires
            self.fenced@.len() + self.unfenced@.len() <= usize::MAX,
        ensures
            n == self.fenced@.len() + self.unfenced@.len(),
    {
        self.fenced.len() + self.unfenced.len()
    }

    /// Whether the staging slot `uid` is held: the shell may be reading it.
    pub fn holds_slot(&self, uid: u64) -> (yes: bool)
        ensures
            yes == self@.holds_slot(uid),
    {
        let mut i: usize = 0;
        while i < self.fenced.len()
            invariant
                i <= self.fenced.len(),
                forall|j: int|
                    0 <= j < i ==> (#[trigger] self.fenced@[j]).1 != BufferKey::Staged(uid),
            decreases self.fenced.len() - i,
        {
            if self.fenced[i].1 == BufferKey::Staged(uid) {
                return true;
            }
            i += 1;
        }
        let mut k: usize = 0;
        while k < self.unfenced.len()
            invariant
                k <= self.unfenced.len(),
                forall|j: int|
                    0 <= j < self.fenced@.len() ==> (#[trigger] self.fenced@[j]).1
                        != BufferKey::Staged(uid),
                forall|j: int|
                    0 <= j < k ==> (#[trigger] self.unfenced@[j]).1 != BufferKey::Staged(uid),
            decreases self.unfenced.len() - k,
        {
            if self.unfenced[k].1 == BufferKey::Staged(uid) {
                return true;
            }
            k += 1;
        }
        false
    }
}

/// A part of distinct holds holds no buffer twice either, and no more.
proof fn filtering_keeps_the_bound(
    holds: Seq<(u64, BufferKey)>,
    p: spec_fn((u64, BufferKey)) -> bool,
)
    requires
        forall|i: int, j: int| 0 <= i < j < holds.len() ==> holds[i].1 != holds[j].1,
    ensures
        holds.filter(p).len() <= holds.len(),
        forall|i: int, j: int|
            0 <= i < j < holds.filter(p).len() ==> holds.filter(p)[i].1 != holds.filter(p)[j].1,
        forall|i: int|
            0 <= i < holds.filter(p).len() ==> holds.contains(#[trigger] holds.filter(p)[i]) && p(
                holds.filter(p)[i],
            ),
    decreases holds.len(),
{
    reveal(Seq::filter);
    if holds.len() > 0 {
        let d = holds.drop_last();
        let last = holds.last();
        assert forall|i: int, j: int| 0 <= i < j < d.len() implies d[i].1 != d[j].1 by {
            assert(holds[i].1 != holds[j].1);
        }
        filtering_keeps_the_bound(d, p);
        let f = holds.filter(p);
        let fd = d.filter(p);
        assert(holds == d.push(last));
        assert forall|i: int| 0 <= i < f.len() implies holds.contains(#[trigger] f[i]) && p(f[i]) by {
            if i < fd.len() {
                assert(fd[i] == f[i]);
                assert(d.contains(fd[i]));
                let k = choose|k: int| 0 <= k < d.len() && d[k] == fd[i];
                assert(holds[k] == f[i]);
            } else {
                assert(holds[holds.len() - 1] == f[i]);
            }
        }
        assert forall|i: int, j: int| 0 <= i < j < f.len() implies f[i].1 != f[j].1 by {
            assert(fd[i] == f[i]);
            if j < fd.len() {
                assert(fd[j] == f[j]);
            } else {
                assert(d.contains(fd[i]));
                let k = choose|k: int| 0 <= k < d.len() && d[k] == fd[i];
                assert(holds[k].1 != holds[holds.len() - 1].1);
            }
        }
    }
}

/// However often a client submits, a view holds at most `MAX_UNFENCED` of its
/// buffers without a fence, and none of them twice.
pub proof fn holding_again_keeps_the_bound(holds: HoldsModel, seq: u64, held: BufferKey)
    requires
        holds.wf(),
    ensures
        holds.with_unfenced(seq, held).wf(),
{
    let p = not_on(held);
    filtering_keeps_the_bound(holds.unfenced, p);
    let kept = holds.unfenced.filter(p);
    let all = holds.rehold(seq, held);
    assert forall|i: int, j: int| 0 <= i < j < all.len() implies all[i].1 != all[j].1 by {
        if j < kept.len() {
            assert(kept[i].1 != kept[j].1);
        } else {
            assert(p(kept[i]));
        }
    }
    let after = holds.with_unfenced(seq, held).unfenced;
    assert forall|i: int, j: int| 0 <= i < j < after.len() implies after[i].1 != after[j].1 by {
        if all.len() > MAX_UNFENCED {
            assert(all[i + 1].1 != all[j + 1].1);
        } else {
            assert(all[i].1 != all[j].1);
        }
    }
}

proof fn split_count(holds: Seq<(u64, BufferKey)>, keep: spec_fn((u64, BufferKey)) -> bool, lose: spec_fn((u64, BufferKey)) -> bool)
    requires
        forall|h: (u64, BufferKey)| #[trigger] keep(h) == !lose(h),
    ensures
        drops(holds).to_multiset() == drops(holds.filter(keep)).to_multiset().add(
            drops(holds.filter(lose)).to_multiset(),
        ),
    decreases holds.len(),
{
    broadcast use vstd::seq_lib::group_to_multiset_ensures;

    if holds.len() == 0 {
        nothing_filtered(keep);
        nothing_filtered(lose);
        assert(holds == Seq::<(u64, BufferKey)>::empty());
        assert(drops(holds).to_multiset() =~= drops(holds.filter(keep)).to_multiset().add(
            drops(holds.filter(lose)).to_multiset(),
        ));
    } else {
        let d = holds.drop_last();
        let h = holds.last();
        assert(holds == d.push(h));
        split_count(d, keep, lose);
        one_more(d, h, keep, lose);
        one_more(d, h, lose, keep);
        assert(drops(holds) == drops(d).push(dropped(h.1)));
        vstd::seq_lib::to_multiset_build(drops(d), dropped(h.1));
        vstd::seq_lib::to_multiset_build(drops(d.filter(keep)), dropped(h.1));
        vstd::seq_lib::to_multiset_build(drops(d.filter(lose)), dropped(h.1));
        assert(drops(holds).to_multiset() =~= drops(holds.filter(keep)).to_multiset().add(
            drops(holds.filter(lose)).to_multiset(),
        ));
    }
}

/// A report neither loses nor doubles a hold: each is dropped now or still
/// held, and only holds of earlier frames are dropped.
pub proof fn a_report_drops_each_hold_once(holds: HoldsModel, seq: u64)
    ensures
        holds.count() == holds.shown(seq).count().add(
            drops(holds.unfenced.filter(before_frame(seq))).to_multiset(),
        ),
{
    split_count(holds.unfenced, from_frame(seq), before_frame(seq));
    assert(holds.count() =~= holds.shown(seq).count().add(
        drops(holds.unfenced.filter(before_frame(seq))).to_multiset(),
    ));
}

/// A fence signaling neither loses nor doubles a hold.
pub proof fn a_fence_drops_each_hold_once(holds: HoldsModel, key: u64)
    ensures
        holds.count() == holds.signaled(key).count().add(
            drops(holds.fenced.filter(with_key(key))).to_multiset(),
        ),
{
    split_count(holds.fenced, not_key(key), with_key(key));
    assert(holds.count() =~= holds.signaled(key).count().add(
        drops(holds.fenced.filter(with_key(key))).to_multiset(),
    ));
}

/// Holding a buffer neither loses nor doubles a hold: what was held and the
/// new hold are dropped now or held after.
pub proof fn a_new_hold_is_kept_or_dropped(holds: HoldsModel, seq: u64, held: BufferKey)
    ensures
        holds.count().insert(dropped(held)) == holds.with_unfenced(seq, held).count().add(
            holds.unfenced_drops(seq, held).to_multiset(),
        ),
{
    broadcast use vstd::seq_lib::group_to_multiset_ensures;

    let kept = holds.unfenced.filter(not_on(held));
    let lost = holds.unfenced.filter(on(held));
    let all = holds.rehold(seq, held);
    split_count(holds.unfenced, not_on(held), on(held));
    assert(drops(all) == drops(kept).push(dropped(held)));
    vstd::seq_lib::to_multiset_build(drops(kept), dropped(held));
    let after = holds.with_unfenced(seq, held);
    let lost_now = holds.unfenced_drops(seq, held);
    if all.len() > MAX_UNFENCED {
        assert(drops(all) == drops(all.take(1)) + drops(all.drop_first()));
        vstd::seq_lib::lemma_multiset_commutative(drops(all.take(1)), drops(all.drop_first()));
        vstd::seq_lib::lemma_multiset_commutative(drops(lost), drops(all.take(1)));
        assert(lost_now == drops(lost) + drops(all.take(1)));
        assert(after.unfenced == all.drop_first());
    } else {
        assert(lost_now == drops(lost));
        assert(after.unfenced == all);
    }
    assert(drops(all).to_multiset().add(drops(lost).to_multiset()) =~= drops(
        after.unfenced,
    ).to_multiset().add(lost_now.to_multiset()));
    assert(drops(holds.unfenced).to_multiset().insert(dropped(held)) =~= drops(
        all,
    ).to_multiset().add(drops(lost).to_multiset()));
    let f = drops(holds.fenced).to_multiset();
    let u = drops(holds.unfenced).to_multiset();
    let a = drops(after.unfenced).to_multiset();
    let l = lost_now.to_multiset();
    assert(u.insert(dropped(held)) == a.add(l));
    assert(f.add(u).insert(dropped(held)) =~= f.add(u.insert(dropped(held))));
    assert(f.add(a.add(l)) =~= f.add(a).add(l));
    assert(after.count() == f.add(a));
}

/// What is asked for to drop a hold: the client's buffer goes back to it, a
/// staging slot to its ring. Each hold is dropped in turn.
pub proof fn what_dropping_asks_for(holds: Seq<(u64, BufferKey)>, i: int)
    requires
        0 <= i < holds.len(),
    ensures
        drops(holds).len() == holds.len(),
        holds[i].1 is Client ==> drops(holds)[i] == Action::ReleaseBuffer(holds[i].1->Client_0),
        holds[i].1 is Staged ==> drops(holds)[i] == Action::ReleaseSlot(holds[i].1->Staged_0),
{
}

/// A buffer held without a fence is held for the frame that shows it, and for
/// that one only; other holds stay, but for the oldest where there would be
/// more than 64.
pub proof fn a_buffer_is_held_for_its_last_frame(
    holds: HoldsModel,
    seq: u64,
    held: BufferKey,
    h: (u64, BufferKey),
)
    ensures
        ({
            let after = holds.with_unfenced(seq, held);
            &&& after.unfenced.len() > 0 && after.unfenced.last() == (seq, held)
            &&& after.fenced == holds.fenced
            &&& after.last_key == holds.last_key
            &&& holds.unfenced.len() <= 64 ==> after.unfenced.len() <= 64
            &&& after.unfenced.contains(h) ==> h == (seq, held) || (holds.unfenced.contains(h)
                && h.1 != held)
            &&& holds.unfenced.len() < 64 && holds.unfenced.contains(h) && h.1 != held
                ==> after.unfenced.contains(h)
        }),
{
    let kept = holds.unfenced.filter(not_on(held));
    crate::maps::what_a_filter_keeps(holds.unfenced, not_on(held), h);
    let all = holds.rehold(seq, held);
    let after = holds.with_unfenced(seq, held).unfenced;
    holds.unfenced.lemma_filter_len(not_on(held));
    if after.contains(h) {
        let i = choose|i: int| 0 <= i < after.len() && after[i] == h;
        let k = if all.len() > MAX_UNFENCED {
            i + 1
        } else {
            i
        };
        assert(all[k] == h);
        if k < kept.len() {
            assert(kept[k] == h);
        }
    }
    if holds.unfenced.len() < 64 && holds.unfenced.contains(h) && h.1 != held {
        let i = choose|i: int| 0 <= i < kept.len() && kept[i] == h;
        assert(all[i] == h);
    }
}

/// A buffer held until a fence signals is held beside all that was held.
pub proof fn a_fenced_buffer_is_held_besides(
    holds: HoldsModel,
    key: u64,
    held: BufferKey,
    h: (u64, BufferKey),
)
    ensures
        holds.with_fenced(key, held).fenced.contains(h) <==> h == (key, held)
            || holds.fenced.contains(h),
        holds.with_fenced(key, held).fenced.len() == holds.fenced.len() + 1,
        holds.with_fenced(key, held).unfenced == holds.unfenced,
{
    let after = holds.with_fenced(key, held).fenced;
    if after.contains(h) {
        let i = choose|i: int| 0 <= i < after.len() && after[i] == h;
        if i < holds.fenced.len() {
            assert(holds.fenced[i] == h);
        }
    }
    if holds.fenced.contains(h) {
        let i = choose|i: int| 0 <= i < holds.fenced.len() && holds.fenced[i] == h;
        assert(after[i] == h);
    }
    assert(after[holds.fenced.len() as int] == (key, held));
}

/// Once a frame is on screen the buffers held without a fence for earlier
/// frames go back, and no other; what waits for a fence still waits.
pub proof fn a_shown_frame_frees_earlier_ones(
    holds: HoldsModel,
    seq: u64,
    n: u64,
    buffer: u64,
)
    ensures
        holds.shown(seq).unfenced.contains((n, BufferKey::Client(buffer))) <==> n >= seq
            && holds.unfenced.contains((n, BufferKey::Client(buffer))),
        holds.shown(seq).unfenced.contains((n, BufferKey::Staged(buffer))) <==> n >= seq
            && holds.unfenced.contains((n, BufferKey::Staged(buffer))),
        holds.shown(seq).fenced == holds.fenced,
        n < seq && holds.unfenced.contains((n, BufferKey::Client(buffer))) ==> drops(
            holds.unfenced.filter(before_frame(seq)),
        ).contains(Action::ReleaseBuffer(buffer)),
        n < seq && holds.unfenced.contains((n, BufferKey::Staged(buffer))) ==> drops(
            holds.unfenced.filter(before_frame(seq)),
        ).contains(Action::ReleaseSlot(buffer)),
        drops(holds.unfenced.filter(before_frame(seq))).contains(Action::ReleaseBuffer(buffer))
            ==> exists|m: u64|
            m < seq && #[trigger] holds.unfenced.contains((m, BufferKey::Client(buffer))),
{
    let c = (n, BufferKey::Client(buffer));
    let s = (n, BufferKey::Staged(buffer));
    crate::maps::what_a_filter_keeps(holds.unfenced, from_frame(seq), c);
    crate::maps::what_a_filter_keeps(holds.unfenced, from_frame(seq), s);
    crate::maps::what_a_filter_keeps(holds.unfenced, before_frame(seq), c);
    crate::maps::what_a_filter_keeps(holds.unfenced, before_frame(seq), s);
    let gone = holds.unfenced.filter(before_frame(seq));
    let acts = drops(gone);
    if gone.contains(c) {
        let i = choose|i: int| 0 <= i < gone.len() && gone[i] == c;
        assert(acts[i] == Action::ReleaseBuffer(buffer));
    }
    if gone.contains(s) {
        let i = choose|i: int| 0 <= i < gone.len() && gone[i] == s;
        assert(acts[i] == Action::ReleaseSlot(buffer));
    }
    if acts.contains(Action::ReleaseBuffer(buffer)) {
        let i = choose|i: int| 0 <= i < acts.len() && acts[i] == Action::ReleaseBuffer(buffer);
        crate::maps::what_a_filter_keeps(holds.unfenced, before_frame(seq), gone[i]);
        assert(gone.contains(gone[i]));
        assert(holds.unfenced.contains((gone[i].0, BufferKey::Client(buffer))));
    }
}

/// Once a fence signals, what waited for it goes back, and nothing else.
pub proof fn a_fence_frees_what_waits_for_it(
    holds: HoldsModel,
    key: u64,
    n: u64,
    held: BufferKey,
)
    ensures
        holds.signaled(key).fenced.contains((n, held)) <==> n != key && holds.fenced.contains(
            (n, held),
        ),
        holds.signaled(key).unfenced == holds.unfenced,
        holds.fenced.contains((key, held)) ==> drops(
            holds.fenced.filter(with_key(key)),
        ).contains(
            match held {
                BufferKey::Client(b) => Action::ReleaseBuffer(b),
                BufferKey::Staged(uid) => Action::ReleaseSlot(uid),
            },
        ),
        forall|i: int|
            0 <= i < holds.fenced.filter(with_key(key)).len() ==> (
            #[trigger] holds.fenced.filter(with_key(key))[i]).0 == key,
{
    crate::maps::what_a_filter_keeps(holds.fenced, not_key(key), (n, held));
    crate::maps::what_a_filter_keeps(holds.fenced, with_key(key), (key, held));
    let gone = holds.fenced.filter(with_key(key));
    if holds.fenced.contains((key, held)) {
        let i = choose|i: int| 0 <= i < gone.len() && gone[i] == (key, held);
        assert(drops(gone)[i] == dropped(held));
    }
    assert forall|i: int| 0 <= i < gone.len() implies (#[trigger] gone[i]).0 == key by {
        holds.fenced.lemma_filter_pred(with_key(key), i);
    }
}

/// A slot is in use while it is held, with a fence or without.
pub proof fn when_a_slot_is_in_use(holds: HoldsModel, uid: u64, n: u64)
    ensures
        holds.fenced.contains((n, BufferKey::Staged(uid))) ==> holds.holds_slot(uid),
        holds.unfenced.contains((n, BufferKey::Staged(uid))) ==> holds.holds_slot(uid),
        (forall|i: int|
            0 <= i < holds.fenced.len() ==> (#[trigger] holds.fenced[i]).1 != BufferKey::Staged(
                uid,
            )) && (forall|i: int|
            0 <= i < holds.unfenced.len() ==> (#[trigger] holds.unfenced[i]).1
                != BufferKey::Staged(uid)) ==> !holds.holds_slot(uid),
{
    let h = (n, BufferKey::Staged(uid));
    if holds.fenced.contains(h) {
        let i = choose|i: int| 0 <= i < holds.fenced.len() && holds.fenced[i] == h;
        assert(holds.fenced[i].1 == BufferKey::Staged(uid));
    }
    if holds.unfenced.contains(h) {
        let i = choose|i: int| 0 <= i < holds.unfenced.len() && holds.unfenced[i] == h;
        assert(holds.unfenced[i].1 == BufferKey::Staged(uid));
    }
}

/// The number of the last fence is never taken back: whatever is held or given
/// back, a fence watched later gets another.
pub proof fn fence_numbers_are_kept(holds: HoldsModel, n: u64, held: BufferKey)
    ensures
        holds.cleared().last_key == holds.last_key,
        holds.shown(n).last_key == holds.last_key,
        holds.signaled(n).last_key == holds.last_key,
        holds.with_fenced(n, held).last_key == holds.last_key,
        holds.with_unfenced(n, held).last_key == holds.last_key,
        holds.cleared().fenced.len() == 0,
        holds.cleared().unfenced.len() == 0,
{
}

/// To give everything back each fence is first let go of, and then what waited
/// for it.
pub proof fn a_watch_ends_with_its_hold(view_id: i32, fenced: Seq<(u64, BufferKey)>, i: int)
    requires
        0 <= i < fenced.len(),
    ensures
        unwatched(view_id, fenced).contains(Action::DropFence { view_id, key: fenced[i].0 }),
        unwatched(view_id, fenced).contains(
            match fenced[i].1 {
                BufferKey::Client(b) => Action::ReleaseBuffer(b),
                BufferKey::Staged(uid) => Action::ReleaseSlot(uid),
            },
        ),
{
    let f = |h: (u64, BufferKey)| seq![Action::DropFence { view_id, key: h.0 }, dropped(h.1)];
    let a = Action::DropFence { view_id, key: fenced[i].0 };
    let b = dropped(fenced[i].1);
    assert(f(fenced[i])[0] == a);
    assert(f(fenced[i])[1] == b);
    assert(f(fenced[i]).contains(a));
    assert(f(fenced[i]).contains(b));
    crate::maps::listed_by_a_piece(fenced, f, a);
    crate::maps::listed_by_a_piece(fenced, f, b);
}

} // verus!
