//! The platform-view factory and the per-view link.
//!
//! Dispose rule: once `dispose` returns, no submit for that view may be in
//! flight or start. Each view's link sits behind a lock that is held across
//! every submit, and that dispose clears: so dispose waits out an in-flight
//! submit, and every later one finds nothing. Nor is anything submitted while
//! the shell grants no kind of layer.

use vstd::prelude::*;

use crate::params::ViewParams;

verus! {

/// What the compositor thread needs to submit to a live view: the shell's
/// handle of it, and the kind of layer granted.
#[derive(Clone, Copy, Debug, PartialEq, Eq, Structural)]
pub struct ViewLink {
    pub view: u64,
    pub granted_kind: u32,
}

/// A view's link to the shell, until it is disposed of.
#[derive(Clone, Copy, Debug, PartialEq, Eq, Structural)]
pub struct Link {
    pub link: Option<ViewLink>,
}

impl Link {
    /// The handle that frames are submitted to: none once the view is disposed
    /// of, nor while no kind of layer is granted.
    pub open spec fn submits_to(self) -> Option<u64> {
        match self.link {
            Some(link) => if link.granted_kind == 0 {
                None
            } else {
                Some(link.view)
            },
            None => None,
        }
    }

    /// The handle to submit to, if there is one. After a negotiation that
    /// failed nothing is submitted until one succeeds.
    pub fn submit_target(&self) -> (view: Option<u64>)
        ensures
            view == self.submits_to(),
            self.link is None ==> view is None,
            self.link is Some && self.link->0.granted_kind == 0 ==> view is None,
            self.link is Some && self.link->0.granted_kind != 0 ==> view == Some(self.link->0.view),
    {
        match self.link {
            Some(link) => {
                if link.granted_kind == 0 {
                    None
                } else {
                    Some(link.view)
                }
            },
            None => None,
        }
    }

    /// The handle, until the view is disposed of: what it imported is retired
    /// there and it is negotiated for again there, granted or not.
    pub fn target(&self) -> (view: Option<u64>)
        ensures
            view == match self.link {
                Some(link) => Some(link.view),
                None => None,
            },
    {
        match self.link {
            Some(link) => Some(link.view),
            None => None,
        }
    }

    /// The view was disposed of.
    pub fn dispose(&mut self)
        ensures
            final(self).link is None,
    {
        self.link = None;
    }

    /// The view was negotiated for again: with what kind, None when that
    /// failed. A view disposed of meanwhile stays so.
    pub fn renegotiated(&mut self, kind: Option<u32>)
        ensures
            final(self).link == match old(self).link {
                Some(link) => Some(
                    ViewLink {
                        view: link.view,
                        granted_kind: match kind {
                            Some(kind) => kind,
                            None => 0,
                        },
                    },
                ),
                None => None,
            },
            kind is None ==> final(self).submits_to() is None,
    {
        if let Some(link) = self.link {
            let granted_kind: u32 = match kind {
                Some(kind) => kind,
                None => 0,
            };
            self.link = Some(ViewLink { view: link.view, granted_kind });
        }
    }
}

/// How a layer and its producer are kept in step.
#[derive(Clone, Copy, Debug, PartialEq, Eq, Structural)]
pub enum SyncKind {
    Implicit,
    ExplicitPreferred,
}

/// Where a view goes among Flutter's layers.
#[derive(Clone, Copy, Debug, PartialEq, Eq, Structural)]
pub enum ZOrder {
    Inline,
    Overlay,
}

/// What a view negotiates for.
#[derive(Clone, Copy, Debug, PartialEq, Eq, Structural)]
pub struct Requirements {
    pub dmabuf_import: bool,
    pub software_shm: bool,
    pub needs_alpha: bool,
    pub sync: SyncKind,
    pub z_order: ZOrder,
}

/// The requirement every view negotiates: zero-copy import with the
/// shared-memory floor, explicit sync preferred, composited inline with
/// Flutter's layers.
pub fn requirements() -> (r: Requirements)
    ensures
        r == (Requirements {
            dmabuf_import: true,
            software_shm: true,
            needs_alpha: true,
            sync: SyncKind::ExplicitPreferred,
            z_order: ZOrder::Inline,
        }),
{
    Requirements {
        dmabuf_import: true,
        software_shm: true,
        needs_alpha: true,
        sync: SyncKind::ExplicitPreferred,
        z_order: ZOrder::Inline,
    }
}

/// What the factory answers the shell.
#[derive(Clone, Copy, Debug, PartialEq, Eq, Structural)]
pub enum Answer {
    /// The view is created.
    Created,
    /// The call was malformed.
    Invalid,
    /// There is no server to feed the view.
    NoBackend,
    /// The negotiation failed, with the shell's own code.
    Refused(i32),
}

/// The next thing to do for a view being created.
#[derive(Clone, Copy, Debug, PartialEq, Eq, Structural)]
pub enum Creating {
    Negotiate,
    /// Hand the view to the compositor thread.
    Send,
    Done(Answer),
}

/// The shell asks for a view. Without a server running none is negotiated for:
/// a grant is not taken for a view nothing will ever feed.
pub fn factory(arguments: bool, running: bool) -> (next: Creating)
    ensures
        next == if !arguments {
            Creating::Done(Answer::Invalid)
        } else if !running {
            Creating::Done(Answer::NoBackend)
        } else {
            Creating::Negotiate
        },
{
    if !arguments {
        Creating::Done(Answer::Invalid)
    } else if !running {
        Creating::Done(Answer::NoBackend)
    } else {
        Creating::Negotiate
    }
}

/// The negotiation returned `rc`; 0 is success.
pub fn negotiated(rc: i32) -> (next: Creating)
    ensures
        next == if rc == 0 {
            Creating::Send
        } else {
            Creating::Done(Answer::Refused(rc))
        },
{
    if rc == 0 {
        Creating::Send
    } else {
        Creating::Done(Answer::Refused(rc))
    }
}

/// The view was handed to the compositor thread, which took it or not.
pub fn handed_over(taken: bool) -> (answer: Answer)
    ensures
        answer == if taken {
            Answer::Created
        } else {
            Answer::NoBackend
        },
{
    if taken {
        Answer::Created
    } else {
        Answer::NoBackend
    }
}

/// What the widget passed for the view; nothing when it passed none.
pub fn creation_params(bytes: Option<&[u8]>) -> (params: ViewParams)
    ensures
        ({
            let b = match bytes {
                Some(b) => b@,
                None => Seq::<u8>::empty(),
            };
            let entries = crate::params::entries(b);
            &&& crate::params::is_text(
                params.token,
                crate::params::text_of(crate::params::lookup(entries, "token"@)),
            )
            &&& crate::params::is_text(
                params.app_id,
                crate::params::text_of(crate::params::lookup(entries, "app_id"@)),
            )
            &&& params.dpr == crate::params::ratio_of(crate::params::lookup(entries, "dpr"@))
        }),
{
    match bytes {
        Some(b) => ViewParams::decode(b),
        None => ViewParams::default(),
    }
}

/// A view's size at creation, rounded to physical pixels: none where a side is
/// less than a pixel. The view is laid out before it is created, so no resize
/// may follow.
pub fn created_size(w: i32, h: i32) -> (size: Option<(i32, i32)>)
    ensures
        size == if w >= 1 && h >= 1 {
            Some((w, h))
        } else {
            None
        },
{
    if w >= 1 && h >= 1 {
        Some((w, h))
    } else {
        None
    }
}

/// A side of a toplevel, in logical pixels: a pixel at least.
pub fn configured_side(side: i32) -> (s: i32)
    ensures
        s == if side < 1 {
            1
        } else {
            side
        },
{
    if side < 1 {
        1
    } else {
        side
    }
}

/// Frames go to a view that is there and has a kind of layer granted, under
/// the shell's own handle of it, and to no other.
pub proof fn where_frames_go(link: Link, view: u64)
    ensures
        link.submits_to() == Some(view) <==> link.link is Some && link.link->0.view == view
            && link.link->0.granted_kind != 0,
{
}

} // verus!
