//! Buffer identity: a buffer id per client buffer (or per staging slot the
//! server copies a shared-memory buffer into), the key the shell caches its
//! import of the buffer under.
//!
//! An id is handed out the first time a buffer is submitted and never reused,
//! so a client's ring of two to four buffers hits the shell's import cache on
//! every frame. When the client destroys the buffer, every view it was shown
//! in is told to drop its import.

use std::collections::BTreeMap;
use vstd::prelude::*;

verus! {

broadcast use vstd::laws_cmp::group_laws_cmp;

/// What a buffer id names.
#[derive(Clone, Copy, Debug, PartialEq, Eq, Structural)]
pub enum BufferKey {
    /// A client's dma-buf, shown as is.
    Client(u64),
    /// A staging slot, by its number.
    Staged(u64),
}

/// A buffer's id and the views it was submitted to.
#[derive(Debug)]
pub struct Entry {
    pub id: u32,
    pub views: Vec<i32>,
}

/// An entry, as plain values.
pub struct EntryModel {
    pub id: u32,
    pub views: Seq<i32>,
}

impl View for Entry {
    type V = EntryModel;

    open spec fn view(&self) -> EntryModel {
        EntryModel { id: self.id, views: self.views@ }
    }
}

/// The ids handed out.
#[derive(Debug)]
pub struct BufferIds {
    pub last: u32,
    pub clients: BTreeMap<u64, Entry>,
    pub staged: BTreeMap<u64, Entry>,
}

/// The ids handed out, as plain values.
#[verifier::ext_equal]
pub struct IdsModel {
    pub last: u32,
    pub by_buffer: Map<BufferKey, EntryModel>,
}

impl View for BufferIds {
    type V = IdsModel;

    open spec fn view(&self) -> IdsModel {
        IdsModel {
            last: self.last,
            by_buffer: Map::new(
                |k: BufferKey|
                    match k {
                        BufferKey::Client(b) => self.clients@.contains_key(b),
                        BufferKey::Staged(b) => self.staged@.contains_key(b),
                    },
                |k: BufferKey|
                    match k {
                        BufferKey::Client(b) => self.clients@[b]@,
                        BufferKey::Staged(b) => self.staged@[b]@,
                    },
            ),
        }
    }
}

/// The id after `last`. 0 is left unused so a zeroed frame never aliases a
/// real buffer. Wrapping takes four billion buffers; the shell drops an import
/// it no longer needs on its own bound, so a reused id at worst re-imports.
pub open spec fn id_after(last: u32) -> u32 {
    if last == u32::MAX {
        1
    } else {
        (last + 1) as u32
    }
}

/// `views` with `view_id` among them.
pub open spec fn noted(views: Seq<i32>, view_id: i32) -> Seq<i32> {
    if views.contains(view_id) {
        views
    } else {
        views.push(view_id)
    }
}

/// Any view but `view_id`.
pub open spec fn other_than(view_id: i32) -> spec_fn(i32) -> bool {
    |v: i32| v != view_id
}

/// `views` without `view_id`.
pub open spec fn without(views: Seq<i32>, view_id: i32) -> Seq<i32> {
    views.filter(other_than(view_id))
}

impl IdsModel {
    /// The id of `key`, handed out now if it has none.
    pub open spec fn id_of(self, key: BufferKey) -> u32 {
        if self.by_buffer.contains_key(key) {
            self.by_buffer[key].id
        } else {
            id_after(self.last)
        }
    }

    /// The ids once `key` was submitted to `view_id`.
    pub open spec fn with_id(self, key: BufferKey, view_id: i32) -> IdsModel {
        if self.by_buffer.contains_key(key) {
            let e = self.by_buffer[key];
            IdsModel {
                by_buffer: self.by_buffer.insert(
                    key,
                    EntryModel { id: e.id, views: noted(e.views, view_id) },
                ),
                ..self
            }
        } else {
            IdsModel {
                last: id_after(self.last),
                by_buffer: self.by_buffer.insert(
                    key,
                    EntryModel { id: id_after(self.last), views: seq![view_id] },
                ),
            }
        }
    }

    /// The ids without the buffer `key`.
    pub open spec fn destroyed(self, key: BufferKey) -> IdsModel {
        IdsModel { by_buffer: self.by_buffer.remove(key), ..self }
    }

    /// The ids without the view `view_id`.
    pub open spec fn forgotten(self, view_id: i32) -> IdsModel {
        IdsModel {
            by_buffer: self.by_buffer.map_values(
                |e: EntryModel| EntryModel { id: e.id, views: without(e.views, view_id) },
            ),
            ..self
        }
    }

    /// Ids are non-zero, and no two buffers share one. Ids handed out so far
    /// run from 1 to `last`, as long as they have not wrapped.
    pub open spec fn distinct(self) -> bool {
        &&& forall|k: BufferKey| #[trigger]
            self.by_buffer.contains_key(k) ==> 1 <= self.by_buffer[k].id <= self.last
        &&& forall|a: BufferKey, b: BufferKey|
            #![trigger self.by_buffer[a], self.by_buffer[b]]
            self.by_buffer.contains_key(a) && self.by_buffer.contains_key(b) && a != b
                ==> self.by_buffer[a].id != self.by_buffer[b].id
    }
}

/// Whether `views` lists `view_id`.
pub fn lists_view(views: &Vec<i32>, view_id: i32) -> (found: bool)
    ensures
        found == views@.contains(view_id),
{
    let mut i: usize = 0;
    while i < views.len()
        invariant
            i <= views.len(),
            forall|j: int| 0 <= j < i ==> views@[j] != view_id,
        decreases views.len() - i,
    {
        if views[i] == view_id {
            assert(views@[i as int] == view_id);
            return true;
        }
        i += 1;
    }
    false
}

fn drop_view(views: &Vec<i32>, view_id: i32) -> (kept: Vec<i32>)
    ensures
        kept@ == without(views@, view_id),
{
    let ghost p = other_than(view_id);
    let mut kept: Vec<i32> = Vec::new();
    let mut i: usize = 0;
    proof {
        assert(views@.take(0) == Seq::<i32>::empty());
        assert(views@.take(0).filter(p) == Seq::<i32>::empty()) by {
            reveal(Seq::filter);
        }
    }
    while i < views.len()
        invariant
            i <= views.len(),
            p == other_than(view_id),
            kept@ == views@.take(i as int).filter(p),
        decreases views.len() - i,
    {
        proof {
            assert(views@.take(i + 1) == views@.take(i as int).push(views@[i as int]));
            views@.take(i as int).lemma_filter_push(views@[i as int], p);
        }
        if views[i] != view_id {
            kept.push(views[i]);
        }
        i += 1;
    }
    assert(views@.take(i as int) == views@);
    kept
}

/// Note the buffer `b` as shown in `view_id`: its id, `next` if it had none.
fn note(m: &mut BTreeMap<u64, Entry>, b: u64, view_id: i32, next: u32) -> (id: u32)
    ensures
        final(m)@.dom() == old(m)@.dom().insert(b),
        forall|k: u64| k != b && #[trigger] old(m)@.contains_key(k) ==> final(m)@[k] == old(m)@[k],
        old(m)@.contains_key(b) ==> final(m)@[b]@ == (EntryModel {
            id: old(m)@[b].id,
            views: noted(old(m)@[b].views@, view_id),
        }),
        !old(m)@.contains_key(b) ==> final(m)@[b]@ == (EntryModel {
            id: next,
            views: seq![view_id],
        }),
        id == final(m)@[b].id,
{
    match m.remove(&b) {
        Some(mut entry) => {
            if !lists_view(&entry.views, view_id) {
                entry.views.push(view_id);
            }
            let id: u32 = entry.id;
            m.insert(b, entry);
            assert(m@.dom() == old(m)@.dom().insert(b));
            id
        },
        None => {
            let mut views: Vec<i32> = Vec::new();
            views.push(view_id);
            assert(views@ == seq![view_id]);
            m.insert(b, Entry { id: next, views });
            assert(m@.dom() == old(m)@.dom().insert(b));
            next
        },
    }
}

fn forget_in(m: &mut BTreeMap<u64, Entry>, view_id: i32)
    ensures
        final(m)@.dom() == old(m)@.dom(),
        forall|k: u64| #[trigger]
            old(m)@.contains_key(k) ==> final(m)@[k]@ == (EntryModel {
                id: old(m)@[k].id,
                views: without(old(m)@[k].views@, view_id),
            }),
{
    let keys = crate::maps::keys_of(m);
    let ghost before = m@;
    let mut i: usize = 0;
    proof {
        distinct_keys(keys@);
    }
    while i < keys.len()
        invariant
            i <= keys.len(),
            before == old(m)@,
            m@.dom() == before.dom(),
            crate::maps::lists(keys@, before.dom()),
            forall|a: int, b: int| 0 <= a < b < keys@.len() ==> keys@[a] != keys@[b],
            forall|j: int|
                0 <= j < i ==> m@[#[trigger] keys@[j]]@ == (EntryModel {
                    id: before[keys@[j]].id,
                    views: without(before[keys@[j]].views@, view_id),
                }),
            forall|j: int| i <= j < keys@.len() ==> m@[#[trigger] keys@[j]] == before[keys@[j]],
        decreases keys.len() - i,
    {
        let key: u64 = keys[i];
        proof {
            assert(keys@.contains(key));
            assert(before.dom().contains(key));
        }
        if let Some(mut entry) = m.remove(&key) {
            entry.views = drop_view(&entry.views, view_id);
            m.insert(key, entry);
        }
        assert(m@.dom() == before.dom());
        i += 1;
    }
    assert forall|k: u64| #[trigger] before.contains_key(k) implies m@[k]@ == (EntryModel {
        id: before[k].id,
        views: without(before[k].views@, view_id),
    }) by {
        assert(before.dom().contains(k));
        assert(keys@.contains(k));
        let j = choose|j: int| 0 <= j < keys@.len() && keys@[j] == k;
        assert(keys@[j] == k);
    }
}

proof fn distinct_keys(keys: Seq<u64>)
    requires
        vstd::std_specs::btree::increasing_seq(keys),
    ensures
        forall|a: int, b: int| 0 <= a < b < keys.len() ==> keys[a] != keys[b],
{
    assert(vstd::laws_cmp::obeys_cmp::<u64>());
    assert forall|a: int, b: int| 0 <= a < b < keys.len() implies keys[a] != keys[b] by {
        assert(vstd::std_specs::cmp::OrdSpec::cmp_spec(&keys[a], &keys[b]) is Less);
    }
}

impl BufferIds {
    pub fn new() -> (ids: BufferIds)
        ensures
            ids@ == (IdsModel { last: 0, by_buffer: Map::empty() }),
            ids@.distinct(),
    {
        let ids = BufferIds { last: 0, clients: BTreeMap::new(), staged: BTreeMap::new() };
        assert(ids@ =~= (IdsModel { last: 0, by_buffer: Map::empty() }));
        ids
    }

    /// The buffer's id, handed out now if it has none, and noted as shown in
    /// `view_id`.
    pub fn id_for(&mut self, key: BufferKey, view_id: i32) -> (id: u32)
        ensures
            id == old(self)@.id_of(key),
            final(self)@ == old(self)@.with_id(key, view_id),
    {
        let next: u32 = if self.last == u32::MAX {
            1
        } else {
            self.last + 1
        };
        let ghost before = self@;
        let id: u32 = match key {
            BufferKey::Client(b) => {
                let fresh: bool = !self.clients.contains_key(&b);
                let id: u32 = note(&mut self.clients, b, view_id, next);
                if fresh {
                    self.last = next;
                }
                id
            },
            BufferKey::Staged(b) => {
                let fresh: bool = !self.staged.contains_key(&b);
                let id: u32 = note(&mut self.staged, b, view_id, next);
                if fresh {
                    self.last = next;
                }
                id
            },
        };
        assert(self@.by_buffer =~= before.with_id(key, view_id).by_buffer);
        id
    }

    /// The buffer is gone: its id and the views to retire it in.
    pub fn destroyed(&mut self, key: BufferKey) -> (gone: Option<(u32, Vec<i32>)>)
        ensures
            match gone {
                Some((id, views)) => old(self)@.by_buffer.contains_key(key)
                    && old(self)@.by_buffer[key] == (EntryModel { id, views: views@ }),
                None => !old(self)@.by_buffer.contains_key(key),
            },
            final(self)@ == old(self)@.destroyed(key),
    {
        let ghost before = self@;
        let gone = match key {
            BufferKey::Client(b) => self.clients.remove(&b),
            BufferKey::Staged(b) => self.staged.remove(&b),
        };
        assert(self@.by_buffer =~= before.destroyed(key).by_buffer);
        match gone {
            Some(entry) => Some((entry.id, entry.views)),
            None => None,
        }
    }

    /// A view is gone: nothing to retire there any more.
    pub fn forget_view(&mut self, view_id: i32)
        ensures
            final(self)@ == old(self)@.forgotten(view_id),
    {
        let ghost before = self@;
        forget_in(&mut self.clients, view_id);
        forget_in(&mut self.staged, view_id);
        proof {
            assert forall|k: BufferKey| self@.by_buffer.contains_key(k) implies self@.by_buffer[k]
                == #[trigger] before.forgotten(view_id).by_buffer[k] by {
                match k {
                    BufferKey::Client(b) => {
                        assert(old(self).clients@.contains_key(b));
                    },
                    BufferKey::Staged(b) => {
                        assert(old(self).staged@.contains_key(b));
                    },
                }
            }
            assert(self@.by_buffer =~= before.forgotten(view_id).by_buffer);
        }
    }
}

/// A buffer keeps its id for as long as it lives, whatever is submitted, and
/// a buffer destroyed elsewhere does not change it.
pub proof fn an_id_is_stable(ids: IdsModel, key: BufferKey, other: BufferKey, view_id: i32)
    ensures
        ids.with_id(key, view_id).by_buffer.contains_key(key),
        ids.with_id(key, view_id).id_of(key) == ids.id_of(key),
        ids.by_buffer.contains_key(key) ==> ids.with_id(other, view_id).id_of(key) == ids.id_of(key),
        ids.by_buffer.contains_key(key) && key != other ==> ids.destroyed(other).id_of(key)
            == ids.id_of(key),
        ids.by_buffer.contains_key(key) ==> ids.forgotten(view_id).id_of(key) == ids.id_of(key),
{
}

/// Until the numbers wrap, every id is non-zero and no two live buffers share
/// one: an id handed out is above every one before it.
pub proof fn ids_are_never_reused(ids: IdsModel, key: BufferKey, view_id: i32)
    requires
        ids.distinct(),
        ids.last < u32::MAX,
    ensures
        ids.with_id(key, view_id).distinct(),
        ids.destroyed(key).distinct(),
        ids.forgotten(view_id).distinct(),
        !ids.by_buffer.contains_key(key) ==> ids.id_of(key) > ids.last,
{
    let f = ids.forgotten(view_id);
    assert forall|a: BufferKey, b: BufferKey|
        #![trigger f.by_buffer[a], f.by_buffer[b]]
        f.by_buffer.contains_key(a) && f.by_buffer.contains_key(b) && a != b implies f.by_buffer[a].id
        != f.by_buffer[b].id by {
        assert(ids.by_buffer[a].id != ids.by_buffer[b].id);
    }
    assert forall|k: BufferKey| #[trigger] f.by_buffer.contains_key(k) implies 1
        <= f.by_buffer[k].id <= f.last by {
        assert(ids.by_buffer.contains_key(k));
    }
    let w = ids.with_id(key, view_id);
    assert forall|k: BufferKey| #[trigger] w.by_buffer.contains_key(k) implies 1
        <= w.by_buffer[k].id <= w.last by {
        if k != key {
            assert(ids.by_buffer.contains_key(k));
        }
    }
    assert forall|a: BufferKey, b: BufferKey|
        #![trigger w.by_buffer[a], w.by_buffer[b]]
        w.by_buffer.contains_key(a) && w.by_buffer.contains_key(b) && a != b implies w.by_buffer[a].id
        != w.by_buffer[b].id by {
        if a != key {
            assert(ids.by_buffer.contains_key(a));
        }
        if b != key {
            assert(ids.by_buffer.contains_key(b));
        }
        if a != key && b != key {
            assert(ids.by_buffer[a].id != ids.by_buffer[b].id);
        } else if ids.by_buffer.contains_key(key) {
            assert(ids.by_buffer[a].id != ids.by_buffer[b].id);
        }
    }
}

/// A buffer that has no id gets the number after the last one handed out, 1
/// after the largest, and never 0.
pub proof fn a_new_buffer_gets_the_next_id(ids: IdsModel, key: BufferKey, view_id: i32)
    requires
        !ids.by_buffer.contains_key(key),
    ensures
        ids.last < u32::MAX ==> ids.id_of(key) == ids.last + 1,
        ids.last == u32::MAX ==> ids.id_of(key) == 1,
        ids.with_id(key, view_id).last == ids.id_of(key),
        ids.with_id(key, view_id).by_buffer[key].id == ids.id_of(key),
{
}

/// A buffer is noted in each view it was submitted to, until the view is gone;
/// what is noted of other buffers, and of it in other views, stays.
pub proof fn a_buffer_is_noted_where_it_was_shown(
    ids: IdsModel,
    key: BufferKey,
    other: BufferKey,
    view_id: i32,
    elsewhere: i32,
)
    ensures
        ids.with_id(key, view_id).by_buffer[key].views.contains(view_id),
        elsewhere != view_id && ids.by_buffer.contains_key(key) ==> (ids.with_id(
            key,
            view_id,
        ).by_buffer[key].views.contains(elsewhere) <==> ids.by_buffer[key].views.contains(
            elsewhere,
        )),
        other != key ==> (ids.with_id(key, view_id).by_buffer.contains_key(other)
            <==> ids.by_buffer.contains_key(other)),
        other != key && ids.by_buffer.contains_key(other) ==> ids.with_id(
            key,
            view_id,
        ).by_buffer[other] == ids.by_buffer[other],
        ids.by_buffer.contains_key(key) ==> ids.with_id(key, view_id).last == ids.last,
        !ids.destroyed(key).by_buffer.contains_key(key),
        other != key && ids.by_buffer.contains_key(other) ==> ids.destroyed(
            key,
        ).by_buffer.contains_key(other) && ids.destroyed(key).by_buffer[other]
            == ids.by_buffer[other],
        ids.by_buffer.contains_key(key) ==> ids.forgotten(view_id).by_buffer.contains_key(key)
            && !ids.forgotten(view_id).by_buffer[key].views.contains(view_id),
        ids.by_buffer.contains_key(key) && elsewhere != view_id ==> (ids.forgotten(
            view_id,
        ).by_buffer[key].views.contains(elsewhere) <==> ids.by_buffer[key].views.contains(
            elsewhere,
        )),
{
    let views = ids.by_buffer[key].views;
    crate::maps::what_a_filter_keeps(views, other_than(view_id), view_id);
    crate::maps::what_a_filter_keeps(views, other_than(view_id), elsewhere);
    let added = views.push(view_id);
    assert(added[views.len() as int] == view_id);
    if views.contains(elsewhere) {
        let i = choose|i: int| 0 <= i < views.len() && views[i] == elsewhere;
        assert(added[i] == elsewhere);
    }
    if added.contains(elsewhere) && elsewhere != view_id {
        let i = choose|i: int| 0 <= i < added.len() && added[i] == elsewhere;
        assert(views[i] == elsewhere);
    }
    assert(seq![view_id][0] == view_id);
}

/// A buffer is noted in a view once, however often it is submitted there.
pub proof fn a_view_is_noted_once(ids: IdsModel, key: BufferKey, view_id: i32)
    requires
        ids.by_buffer.contains_key(key) ==> ids.by_buffer[key].views.no_duplicates(),
    ensures
        ids.with_id(key, view_id).by_buffer[key].views.no_duplicates(),
        ids.with_id(key, view_id).with_id(key, view_id) == ids.with_id(key, view_id),
{
    let once = ids.with_id(key, view_id);
    a_buffer_is_noted_where_it_was_shown(ids, key, key, view_id, view_id);
    assert(once.with_id(key, view_id).by_buffer =~= once.by_buffer);
}

} // verus!
