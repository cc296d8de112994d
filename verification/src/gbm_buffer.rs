//! Buffers shared as a gbm buffer rather than through linux-dmabuf.
//!
//! The client hands over a buffer as an fd plus a metadata fd describing it.
//! The protocol carries no stride or modifier: the libgbm that allocated the
//! buffer works them out from the metadata, and what comes back is an
//! ordinary dma-buf, every plane of it on the one fd.

use vstd::prelude::*;

use crate::frame::MAX_PLANES;

verus! {

/// gbm_buffer_params.flags.y_invert.
pub const Y_INVERT: i32 = 1;

/// One plane of a buffer.
#[derive(Clone, Copy, Debug, PartialEq, Eq, Structural)]
pub struct Plane {
    pub offset: u32,
    pub stride: u32,
}

/// A buffer's layout, as libgbm works it out.
#[derive(Debug)]
pub struct Planes {
    pub modifier: u64,
    pub planes: Vec<Plane>,
}

/// Why a buffer could not be imported.
#[derive(Clone, Copy, Debug, PartialEq, Eq, Structural)]
pub enum Refused {
    UnknownFormat(u32),
    BadSize { width: u32, height: u32 },
    BadPlanes(usize),
    /// A params object makes one buffer.
    Used,
    /// Nothing can import such buffers.
    NoImporter,
}

/// A params object, until its one create.
#[derive(Clone, Copy, Debug, PartialEq, Eq, Structural)]
pub struct Params {
    pub used: bool,
}

/// A create request.
#[derive(Clone, Copy, Debug, PartialEq, Eq, Structural)]
pub struct Create {
    pub width: u32,
    pub height: u32,
    pub format: u32,
    pub flags: i32,
}

/// The dma-buf to build for a request.
#[derive(Debug, PartialEq)]
pub struct Import {
    pub width: i32,
    pub height: i32,
    pub format: u32,
    pub modifier: u64,
    pub y_invert: bool,
    pub planes: Vec<Plane>,
}

/// Why `c` cannot be imported, before its layout is asked for.
pub open spec fn refusal(c: Create) -> Option<Refused> {
    if !crate::dmabuf::drm_format_known(c.format) {
        Some(Refused::UnknownFormat(c.format))
    } else if c.width == 0 || c.height == 0 || c.width > i32::MAX || c.height > i32::MAX {
        Some(Refused::BadSize { width: c.width, height: c.height })
    } else {
        None
    }
}

impl Params {
    pub fn new() -> (p: Params)
        ensures
            !p.used,
    {
        Params { used: false }
    }

    /// A create was requested: whether its layout is to be asked for. The
    /// object is used up either way.
    pub fn create(&mut self, importer: bool, c: Create) -> (r: Result<(), Refused>)
        ensures
            final(self).used,
            r == if old(self).used {
                Err::<(), Refused>(Refused::Used)
            } else if !importer {
                Err(Refused::NoImporter)
            } else {
                match refusal(c) {
                    Some(why) => Err(why),
                    None => Ok(()),
                }
            },
    {
        let used: bool = self.used;
        self.used = true;
        if used {
            return Err(Refused::Used);
        }
        if !importer {
            return Err(Refused::NoImporter);
        }
        check(c)
    }
}

/// Whether a request of this size and format can be imported at all.
pub fn check(c: Create) -> (r: Result<(), Refused>)
    ensures
        r == match refusal(c) {
            Some(why) => Err::<(), Refused>(why),
            None => Ok(()),
        },
{
    if !crate::dmabuf::known_fourcc(c.format) {
        return Err(Refused::UnknownFormat(c.format));
    }
    check_size(c)
}

/// The size part of the check, for a format that is known.
pub fn check_size(c: Create) -> (r: Result<(), Refused>)
    ensures
        r == if c.width == 0 || c.height == 0 || c.width > i32::MAX || c.height > i32::MAX {
            Err::<(), Refused>(Refused::BadSize { width: c.width, height: c.height })
        } else {
            Ok(())
        },
{
    if c.width == 0 || c.height == 0 || c.width > 0x7fff_ffff || c.height > 0x7fff_ffff {
        Err(Refused::BadSize { width: c.width, height: c.height })
    } else {
        Ok(())
    }
}

/// The dma-buf behind a shared gbm buffer, given its layout: every plane, on
/// the one fd.
pub fn import(c: Create, layout: Planes) -> (r: Result<Import, Refused>)
    requires
        c.width <= i32::MAX,
        c.height <= i32::MAX,
    ensures
        match r {
            Err(why) => (layout.planes@.len() == 0 || layout.planes@.len() > MAX_PLANES) && why
                == Refused::BadPlanes(layout.planes@.len() as usize),
            Ok(i) => 1 <= layout.planes@.len() <= MAX_PLANES && i.width == c.width && i.height
                == c.height && i.format == c.format && i.modifier == layout.modifier && i.y_invert
                == (c.flags & Y_INVERT != 0) && i.planes@ == layout.planes@,
        },
        r is Ok <==> 1 <= layout.planes@.len() <= 4,
        r matches Ok(i) ==> i.y_invert == (c.flags & 1i32 != 0),
{
    let n: usize = layout.planes.len();
    if n == 0 || n > MAX_PLANES {
        return Err(Refused::BadPlanes(n));
    }
    Ok(
        Import {
            width: c.width as i32,
            height: c.height as i32,
            format: c.format,
            modifier: layout.modifier,
            y_invert: c.flags & Y_INVERT != 0,
            planes: layout.planes,
        },
    )
}

/// A request is refused for its format where that is not known, else for its
/// size where a side is nothing or more than a signed number holds, and not
/// otherwise.
pub proof fn why_a_request_is_refused(c: Create)
    ensures
        !crate::dmabuf::drm_format_known(c.format) <==> refusal(c) == Some(
            Refused::UnknownFormat(c.format),
        ),
        crate::dmabuf::drm_format_known(c.format) && (c.width < 1 || c.height < 1 || c.width
            >= 0x8000_0000 || c.height >= 0x8000_0000) <==> refusal(c) == Some(
            Refused::BadSize { width: c.width, height: c.height },
        ),
        crate::dmabuf::drm_format_known(c.format) && 1 <= c.width <= 0x7fff_ffff && 1 <= c.height
            <= 0x7fff_ffff <==> refusal(c) is None,
{
}

} // verus!
