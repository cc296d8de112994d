//! Buffers from EGL implementations that share them over a protocol of their
//! own, as dma-bufs: each is imported once, and forgotten when its client
//! destroys it.

use vstd::prelude::*;

use crate::gbm_buffer::{Import, Plane};
use crate::vendor_gbm::Layout;

verus! {

/// A number of 32 bits, read as a signed one.
pub open spec fn signed32(n: u32) -> int {
    if n < 0x8000_0000 {
        n as int
    } else {
        n - 0x1_0000_0000
    }
}

fn as_signed(n: u32) -> (s: i32)
    ensures
        s == signed32(n),
{
    if n < 0x8000_0000 {
        n as i32
    } else {
        (n as i64 - 0x1_0000_0000) as i32
    }
}

/// The dma-buf behind a buffer with this layout: its one plane. None where
/// the format is not known.
pub fn dmabuf(layout: Layout) -> (import: Option<Import>)
    ensures
        import is Some <==> crate::dmabuf::drm_format_known(layout.format),
        import matches Some(i) ==> i.width == signed32(layout.width) && i.height == signed32(
            layout.height,
        ) && i.format == layout.format && i.modifier == layout.modifier && !i.y_invert
            && i.planes@ == seq![Plane { offset: layout.offset, stride: layout.stride }],
        import is Some && layout.width <= i32::MAX ==> import->0.width == layout.width,
        import is Some && layout.height <= i32::MAX ==> import->0.height == layout.height,
{
    if !crate::dmabuf::known_fourcc(layout.format) {
        return None;
    }
    let mut planes: Vec<Plane> = Vec::new();
    planes.push(Plane { offset: layout.offset, stride: layout.stride });
    assert(planes@ =~= seq![Plane { offset: layout.offset, stride: layout.stride }]);
    Some(
        Import {
            width: as_signed(layout.width),
            height: as_signed(layout.height),
            format: layout.format,
            modifier: layout.modifier,
            y_invert: false,
            planes,
        },
    )
}

/// The buffers imported so far.
#[derive(Debug)]
pub struct EglBuffers {
    pub cache: Vec<u64>,
}

/// The entries of `cache` whose entry in `alive` is `keep`.
pub open spec fn by_life(cache: Seq<u64>, alive: Seq<bool>, keep: bool) -> Seq<u64>
    decreases cache.len(),
{
    if cache.len() == 0 {
        Seq::empty()
    } else {
        let before = by_life(cache.drop_last(), alive, keep);
        if alive[cache.len() - 1] == keep {
            before.push(cache.last())
        } else {
            before
        }
    }
}

impl EglBuffers {
    pub fn new() -> (b: EglBuffers)
        ensures
            b.cache@ == Seq::<u64>::empty(),
    {
        EglBuffers { cache: Vec::new() }
    }

    /// Whether the buffer was imported before.
    pub fn known(&self, buffer: u64) -> (yes: bool)
        ensures
            yes == self.cache@.contains(buffer),
    {
        let mut i: usize = 0;
        while i < self.cache.len()
            invariant
                i <= self.cache.len(),
                forall|j: int| 0 <= j < i ==> self.cache@[j] != buffer,
            decreases self.cache.len() - i,
        {
            if self.cache[i] == buffer {
                assert(self.cache@[i as int] == buffer);
                return true;
            }
            i += 1;
        }
        false
    }

    /// The buffer was imported.
    pub fn imported(&mut self, buffer: u64)
        ensures
            final(self).cache@ == if old(self).cache@.contains(buffer) {
                old(self).cache@
            } else {
                old(self).cache@.push(buffer)
            },
    {
        if !self.known(buffer) {
            self.cache.push(buffer);
        }
    }

    /// Forget buffers their clients destroyed: which, to retire. `alive` says
    /// of each buffer, in order, whether it is still there.
    pub fn reap(&mut self, alive: &Vec<bool>) -> (dead: Vec<u64>)
        requires
            alive@.len() == old(self).cache@.len(),
        ensures
            dead@ == by_life(old(self).cache@, alive@, false),
            final(self).cache@ == by_life(old(self).cache@, alive@, true),
    {
        let mut dead: Vec<u64> = Vec::new();
        let mut kept: Vec<u64> = Vec::new();
        let ghost all = self.cache@;
        let mut i: usize = 0;
        assert(all.take(0) == Seq::<u64>::empty());
        while i < self.cache.len()
            invariant
                i <= self.cache.len(),
                all == self.cache@,
                all == old(self).cache@,
                alive@.len() == all.len(),
                dead@ == by_life(all.take(i as int), alive@, false),
                kept@ == by_life(all.take(i as int), alive@, true),
            decreases self.cache.len() - i,
        {
            assert(all.take(i + 1).drop_last() == all.take(i as int));
            if alive[i] {
                kept.push(self.cache[i]);
            } else {
                dead.push(self.cache[i]);
            }
            i += 1;
        }
        assert(all.take(i as int) == all);
        self.cache = kept;
        dead
    }
}

/// A number of 32 bits keeps its value where a signed one can have it, and
/// otherwise wraps round to a negative one.
pub proof fn a_small_number_keeps_its_sign(n: u32)
    ensures
        n <= i32::MAX ==> signed32(n) == n,
        n > i32::MAX ==> signed32(n) == n - 0x1_0000_0000,
{
}

/// Reaping parts the buffers: the ones still there stay known, the others are
/// handed back, each once and in order.
pub proof fn reaping_parts_the_buffers(cache: Seq<u64>, alive: Seq<bool>, buffer: u64)
    requires
        alive.len() == cache.len(),
    ensures
        by_life(cache, alive, true).contains(buffer) <==> exists|i: int|
            0 <= i < cache.len() && #[trigger] alive[i] && cache[i] == buffer,
        by_life(cache, alive, false).contains(buffer) <==> exists|i: int|
            0 <= i < cache.len() && !(#[trigger] alive[i]) && cache[i] == buffer,
        by_life(cache, alive, true).len() + by_life(cache, alive, false).len() == cache.len(),
        (forall|i: int| 0 <= i < cache.len() ==> #[trigger] alive[i]) ==> by_life(
            cache,
            alive,
            true,
        ) == cache,
{
    living(cache, alive, buffer, true);
    living(cache, alive, buffer, false);
    assert((exists|i: int| 0 <= i < cache.len() && #[trigger] alive[i] == true && cache[i]
        == buffer) <==> (exists|i: int|
        0 <= i < cache.len() && #[trigger] alive[i] && cache[i] == buffer));
    assert((exists|i: int| 0 <= i < cache.len() && #[trigger] alive[i] == false && cache[i]
        == buffer) <==> (exists|i: int|
        0 <= i < cache.len() && !(#[trigger] alive[i]) && cache[i] == buffer));
}

proof fn living(cache: Seq<u64>, alive: Seq<bool>, buffer: u64, keep: bool)
    requires
        alive.len() >= cache.len(),
    ensures
        by_life(cache, alive, keep).contains(buffer) <==> exists|i: int|
            0 <= i < cache.len() && #[trigger] alive[i] == keep && cache[i] == buffer,
        by_life(cache, alive, true).len() + by_life(cache, alive, false).len() == cache.len(),
        (forall|i: int| 0 <= i < cache.len() ==> #[trigger] alive[i] == keep) ==> by_life(
            cache,
            alive,
            keep,
        ) == cache,
    decreases cache.len(),
{
    if cache.len() > 0 {
        let d = cache.drop_last();
        let last = cache.len() - 1;
        living(d, alive, buffer, keep);
        assert(d.push(cache.last()) == cache);
        let s = by_life(cache, alive, keep);
        let t = by_life(d, alive, keep);
        if s.contains(buffer) {
            let j = choose|j: int| 0 <= j < s.len() && s[j] == buffer;
            if j < t.len() {
                assert(t[j] == buffer);
                let i = choose|i: int|
                    0 <= i < d.len() && #[trigger] alive[i] == keep && d[i] == buffer;
                assert(alive[i] == keep && cache[i] == buffer);
            } else {
                assert(alive[last] == keep && cache[last] == buffer);
            }
        }
        if exists|i: int| 0 <= i < cache.len() && #[trigger] alive[i] == keep && cache[i] == buffer {
            let i = choose|i: int|
                0 <= i < cache.len() && #[trigger] alive[i] == keep && cache[i] == buffer;
            if i < last {
                assert(alive[i] == keep && d[i] == buffer);
                let j = choose|j: int| 0 <= j < t.len() && t[j] == buffer;
                assert(s[j] == buffer);
            } else {
                assert(s[s.len() - 1] == buffer);
            }
        }
    }
}

} // verus!
