//! A hook for watching the server from tests. The shell path needs none of
//! this: a view finds its toplevel by activation token or app_id, so there is
//! no event stream to the shell.

use vstd::prelude::*;

verus! {

/// Something that happened in the server.
#[derive(Clone, Debug, PartialEq)]
pub enum Observed {
    ClientCount(u32),
    ToplevelMapped { app_id: String, title: String },
    ToplevelUnmapped { app_id: String },
    ViewCreated { view_id: i32 },
    ViewDisposed { view_id: i32 },
    ViewBound { view_id: i32, toplevel_id: i64 },
    Submitted { view_id: i32, seq: u64, layers: usize },
    Retired { view_id: i32, buffer_id: u32 },
    /// A disconnected client's commits were still waiting for `count`
    /// buffers; the waits are dropped.
    WaitsDropped { count: usize },
}

/// Where the observer is kept.
#[derive(Debug)]
pub struct Slot<T> {
    pub observer: Option<T>,
}

/// Install (or clear) the observer. The one it replaces hears of nothing more;
/// it is handed back, to be dropped once nothing is locked: its drop may run
/// arbitrary code.
pub fn set_observer<T>(slot: &mut Slot<T>, observer: Option<T>) -> (replaced: Option<T>)
    ensures
        final(slot).observer == observer,
        replaced == old(slot).observer,
{
    let mut other = observer;
    std::mem::swap(&mut slot.observer, &mut other);
    other
}

/// Who hears of an event: the observer, if one is installed.
pub fn observer<T>(slot: &Slot<T>) -> (to: Option<&T>)
    ensures
        match slot.observer {
            Some(observer) => to is Some && *to->0 == observer,
            None => to is None,
        },
{
    match &slot.observer {
        Some(observer) => Some(observer),
        None => None,
    }
}

/// Tell the observer of an event: it is called with that event, and being
/// callable once only, it is called once. It was taken out of its slot before,
/// so that it may itself install another.
pub fn emit<F: FnOnce(&Observed)>(observer: Option<F>, event: &Observed)
    requires
        observer matches Some(f) ==> f.requires((event,)),
    ensures
        observer matches Some(f) ==> f.ensures((event,), ()),
{
    if let Some(f) = observer {
        f(event);
    }
}

/// A client connected: how many there are now.
pub fn client_added(clients: u32) -> (n: u32)
    requires
        clients < u32::MAX,
    ensures
        n == clients + 1,
{
    clients + 1
}

/// A client disconnected: how many there are now, never below zero.
pub fn client_removed(clients: u32) -> (n: u32)
    ensures
        n == if clients == 0 {
            0int
        } else {
            clients - 1
        },
{
    clients.saturating_sub(1)
}

} // verus!
