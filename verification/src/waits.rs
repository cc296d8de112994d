//! Commits held until their buffers are ready, so that the shell is only ever
//! handed finished buffers and needs no acquire fence.
//!
//! Each wait holds an fd in the shell's process until it fires, and an
//! explicit-sync point may never be signaled. So a client gets at most
//! `MAX_WAITS` at a time, and loses them when it disconnects. A commit past
//! that still queues behind the earlier ones, only without a wait of its own.

use std::collections::BTreeMap;
use vstd::prelude::*;

verus! {

broadcast use vstd::laws_cmp::group_laws_cmp;

/// Commits of one client waiting for their buffers at once, at most.
pub const MAX_WAITS: usize = 32;

/// What a commit waits for.
#[derive(Clone, Copy, Debug, PartialEq, Eq, Structural)]
pub enum Gate {
    /// Nothing.
    Open,
    /// Its acquire point. Explicit sync replaces implicit: the buffer may
    /// carry no implicit fence at all.
    AcquirePoint,
    /// The buffer's implicit fence.
    ImplicitFence,
}

/// What a commit waits for: `dmabuf` is whether it attaches a dma-buf,
/// `client` whether its client is still connected, `acquire` whether the point
/// it says its buffer is ready at is signaled, if it names one.
pub fn gate_on_readiness(dmabuf: bool, client: bool, acquire: Option<bool>) -> (gate: Gate)
    ensures
        gate == if !dmabuf || !client {
            Gate::Open
        } else {
            match acquire {
                Some(true) => Gate::Open,
                Some(false) => Gate::AcquirePoint,
                None => Gate::ImplicitFence,
            }
        },
{
    // An acquire point without a dma-buf is a protocol error, which is posted
    // elsewhere.
    if !dmabuf || !client {
        return Gate::Open;
    }
    match acquire {
        Some(signaled) => {
            if signaled {
                Gate::Open
            } else {
                Gate::AcquirePoint
            }
        },
        None => Gate::ImplicitFence,
    }
}

/// The waits, by client.
#[derive(Debug)]
pub struct Waits {
    pub by_client: BTreeMap<u64, Vec<u64>>,
    pub last: u64,
}

impl Waits {
    /// The keys of a client's waits.
    pub open spec fn of(self, client: u64) -> Seq<u64> {
        if self.by_client@.contains_key(client) {
            self.by_client@[client]@
        } else {
            Seq::empty()
        }
    }

    /// No client has more waits than allowed.
    pub open spec fn wf(self) -> bool {
        forall|c: u64| (#[trigger] self.of(c)).len() <= MAX_WAITS
    }

    pub fn new() -> (w: Waits)
        ensures
            w.wf(),
            w.last == 0,
            forall|c: u64| (#[trigger] w.of(c)).len() == 0,
    {
        Waits { by_client: BTreeMap::new(), last: 0 }
    }

    /// A key for a wait of the client; None when it has as many as it gets.
    pub fn next_key(&mut self, client: u64) -> (key: Option<u64>)
        requires
            old(self).wf(),
            old(self).last < u64::MAX,
        ensures
            final(self).by_client@ == old(self).by_client@,
            final(self).wf(),
            match key {
                Some(key) => old(self).of(client).len() < MAX_WAITS && key == old(self).last + 1
                    && final(self).last == key,
                None => old(self).of(client).len() >= MAX_WAITS && final(self).last
                    == old(self).last,
            },
            key is Some <==> old(self).of(client).len() < 32,
    {
        let n: usize = match self.by_client.get(&client) {
            Some(keys) => keys.len(),
            None => 0,
        };
        if n >= MAX_WAITS {
            return None;
        }
        self.last = self.last + 1;
        assert(forall|c: u64| (#[trigger] self.of(c)) == old(self).of(c));
        Some(self.last)
    }

    /// The wait `key` of the client is being watched.
    pub fn hold_commit(&mut self, client: u64, key: u64)
        requires
            old(self).wf(),
            old(self).of(client).len() < MAX_WAITS,
        ensures
            final(self).wf(),
            final(self).of(client) == old(self).of(client).push(key),
            forall|c: u64| c != client ==> #[trigger] final(self).of(c) == old(self).of(c),
            final(self).last == old(self).last,
    {
        let mut keys: Vec<u64> = match self.by_client.remove(&client) {
            Some(keys) => keys,
            None => Vec::new(),
        };
        keys.push(key);
        self.by_client.insert(client, keys);
        assert(self.of(client) =~= old(self).of(client).push(key));
        assert forall|c: u64| (#[trigger] self.of(c)).len() <= MAX_WAITS by {
            if c != client {
                assert(self.of(c) == old(self).of(c));
            }
        }
    }

    /// The wait `key` of the client fired: what it held up can be applied.
    pub fn ready(&mut self, client: u64, key: u64)
        requires
            old(self).wf(),
        ensures
            final(self).wf(),
            final(self).of(client) == old(self).of(client).filter(not_wait(key)),
            forall|k: u64|
                #![trigger final(self).of(client).contains(k)]
                final(self).of(client).contains(k) <==> old(self).of(client).contains(k) && k
                    != key,
            forall|c: u64| c != client ==> #[trigger] final(self).of(c) == old(self).of(c),
            final(self).last == old(self).last,
    {
        let ghost p = not_wait(key);
        let ghost all = self.of(client);
        proof {
            assert forall|k: u64| #[trigger] all.filter(p).contains(k) <==> all.contains(k) && k
                != key by {
                crate::maps::what_a_filter_keeps(all, p, k);
            }
        }
        let keys: Vec<u64> = match self.by_client.remove(&client) {
            Some(keys) => keys,
            None => {
                assert(all.filter(p) =~= all) by {
                    reveal(Seq::filter);
                }
                assert forall|c: u64| #[trigger] self.of(c) == old(self).of(c) by {};
                assert forall|c: u64| (#[trigger] self.of(c)).len() <= MAX_WAITS by {
                    assert(self.of(c) == old(self).of(c));
                }
                return;
            },
        };
        let mut kept: Vec<u64> = Vec::new();
        let mut i: usize = 0;
        proof {
            assert(all.take(0) == Seq::<u64>::empty());
            assert(Seq::<u64>::empty().filter(p) == Seq::<u64>::empty()) by {
                reveal(Seq::filter);
            }
        }
        while i < keys.len()
            invariant
                i <= keys.len(),
                keys@ == all,
                p == not_wait(key),
                kept@ == all.take(i as int).filter(p),
            decreases keys.len() - i,
        {
            proof {
                assert(all.take(i + 1) == all.take(i as int).push(all[i as int]));
                all.take(i as int).lemma_filter_push(all[i as int], p);
            }
            if keys[i] != key {
                kept.push(keys[i]);
            }
            i += 1;
        }
        proof {
            assert(all.take(i as int) == all);
            all.lemma_filter_len(p);
        }
        self.by_client.insert(client, kept);
        assert forall|c: u64| c != client implies #[trigger] self.of(c) == old(self).of(c) by {}
        assert forall|c: u64| (#[trigger] self.of(c)).len() <= MAX_WAITS by {
            if c != client {
                assert(self.of(c) == old(self).of(c));
            } else {
                assert(old(self).of(c).len() <= MAX_WAITS);
            }
        }
    }

    /// The client disconnected: the keys of the waits to drop. Nothing will
    /// apply its commits now, and a wait on a point that is never signaled
    /// would hold its fd for good.
    pub fn reap(&mut self, client: u64) -> (keys: Vec<u64>)
        requires
            old(self).wf(),
        ensures
            final(self).wf(),
            keys@ == old(self).of(client),
            final(self).of(client).len() == 0,
            forall|c: u64| c != client ==> #[trigger] final(self).of(c) == old(self).of(c),
            final(self).last == old(self).last,
    {
        let keys: Vec<u64> = match self.by_client.remove(&client) {
            Some(keys) => keys,
            None => Vec::new(),
        };
        assert(keys@ =~= old(self).of(client));
        assert forall|c: u64| c != client implies #[trigger] self.of(c) == old(self).of(c) by {}
        assert forall|c: u64| (#[trigger] self.of(c)).len() <= MAX_WAITS by {
            if c != client {
                assert(self.of(c) == old(self).of(c));
            }
        }
        keys
    }
}

/// Any wait but `key`.
pub open spec fn not_wait(key: u64) -> spec_fn(u64) -> bool {
    |k: u64| k != key
}

/// A client has at most 32 commits waiting; a wait that fired is the only one
/// that ends.
pub proof fn only_the_wait_that_fired_ends(w: Waits, client: u64, key: u64, other: u64)
    requires
        w.wf(),
    ensures
        w.of(client).len() <= 32,
        MAX_WAITS == 32,
        w.of(client).filter(not_wait(key)).contains(other) <==> w.of(client).contains(other)
            && other != key,
        w.by_client@.contains_key(client) ==> w.of(client) == w.by_client@[client]@,
{
    crate::maps::what_a_filter_keeps(w.of(client), not_wait(key), other);
}

} // verus!
