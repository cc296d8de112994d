//! What the event loop is asked to do, in order.

use vstd::prelude::*;

use crate::timing::Told;

verus! {

/// One step of protocol or shell work. Surfaces, clients, barriers, feedback
/// callbacks and fence sources are named by their numbers.
#[derive(Clone, Copy, Debug, PartialEq, Eq, Structural)]
pub enum Action {
    /// Answer a feedback callback: its content was shown, as it is told here.
    Presented(u64, Told),
    /// Answer a feedback callback: its content was never shown.
    Discarded(u64),
    /// Clear a fifo barrier.
    Cleared(u64),
    /// Apply what a client's commits waited for.
    Unblock(u64),
    /// Send the frame callbacks of every surface the view shows.
    FrameCallbacks { view_id: i32, time_ms: u32 },
    /// Run the frame clock at this time, in place of any earlier request.
    Tick(u64),
    /// The view now shows the toplevel.
    Bound { view_id: i32, toplevel_id: i64 },
    /// Tell every surface of the view's scene its scale.
    ScaleTree(i32),
    /// Size the view's toplevel to the view.
    Configure(i32),
    /// Point the keyboard at this toplevel, or at nothing.
    KeyboardFocus(Option<i64>),
    /// Forget the keys held down.
    ReleaseKeys,
    /// Dismiss every popup of the view.
    DismissPopups(i32),
    /// Hand the view's scene, as it now stands, to the shell.
    Submit(i32),
    /// Hand the shell an empty frame for the view, numbered `seq`.
    SubmitEmpty { view_id: i32, seq: u64 },
    /// Stop watching a release fence of the view.
    DropFence { view_id: i32, key: u64 },
    /// Drop one hold on a client's buffer.
    ReleaseBuffer(u64),
    /// Drop one hold on a staging slot.
    ReleaseSlot(u64),
    /// Have the shell drop the view's import of a buffer.
    Retire { view_id: i32, buffer_id: u32 },
    /// Send a surface the default dma-buf feedback.
    DefaultFeedback(u64),
    /// Send a surface feedback with the scanout tranche last built.
    ScanoutFeedback(u64),
    /// The view no longer shows its surfaces: none of them keeps a scanout
    /// tranche.
    ForgetScanout(i32),
    /// Give the output the view's scale: one output stands for the display
    /// every view is on.
    OutputScale(i32),
    /// Stop the event loop.
    Quit,
}

/// Whether `actions` ask for `first`, and for `then` after it.
pub open spec fn in_order(actions: Seq<Action>, first: Action, then: Action) -> bool {
    exists|i: int, j: int|
        0 <= i < j < actions.len() && #[trigger] actions[i] == first && #[trigger] actions[j]
            == then
}

/// What was asked for in order stays so, whatever is asked for besides.
pub proof fn order_is_kept(
    before: Seq<Action>,
    actions: Seq<Action>,
    after: Seq<Action>,
    first: Action,
    then: Action,
)
    requires
        in_order(actions, first, then),
    ensures
        in_order(before + actions + after, first, then),
{
    let (i, j) = choose|i: int, j: int|
        0 <= i < j < actions.len() && #[trigger] actions[i] == first && #[trigger] actions[j]
            == then;
    let all = before + actions + after;
    assert(all[before.len() + i] == first);
    assert(all[before.len() + j] == then);
}

} // verus!
