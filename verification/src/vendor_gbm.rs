//! The layout of a buffer a libgbm with vendor extensions describes.
//!
//! Such a libgbm keeps a buffer's layout in a metadata buffer beside it, and
//! reports compression through an extension call alone: the modifier it gives
//! says linear either way.

use vstd::prelude::*;

verus! {

/// A buffer's only plane.
#[derive(Clone, Copy, Debug, PartialEq, Eq, Structural)]
pub struct Layout {
    pub width: u32,
    pub height: u32,
    pub format: u32,
    pub offset: u32,
    pub stride: u32,
    pub modifier: u64,
}

/// DRM_FORMAT_MOD_QCOM_COMPRESSED of drm_fourcc.h.
pub const DRM_FORMAT_MOD_QCOM_COMPRESSED: u64 = 0x0500_0000_0000_0001;

/// DRM_FORMAT_MOD_LINEAR of drm_fourcc.h.
pub const DRM_FORMAT_MOD_LINEAR: u64 = 0;

/// What libgbm said of an imported buffer.
#[derive(Clone, Copy, Debug, PartialEq, Eq, Structural)]
pub struct Described {
    /// Its fd could be had and duplicated.
    pub has_fd: bool,
    /// What the compression query returned; 0 is success.
    pub rc: i32,
    /// Whether the buffer is compressed.
    pub compressed: bool,
    pub width: u32,
    pub height: u32,
    pub format: u32,
    pub offset: u32,
    pub stride: u32,
}

/// Why a buffer could not be used.
#[derive(Clone, Copy, Debug, PartialEq, Eq, Structural)]
pub enum Unusable {
    NoFd,
    BadLayout { rc: i32, stride: u32 },
}

/// The layout of the dma-buf behind a shared buffer, as libgbm described it.
pub fn layout_of(d: Described) -> (r: Result<Layout, Unusable>)
    ensures
        r == if !d.has_fd {
            Err::<Layout, Unusable>(Unusable::NoFd)
        } else if d.rc != 0 || d.stride == 0 {
            Err(Unusable::BadLayout { rc: d.rc, stride: d.stride })
        } else {
            Ok(
                Layout {
                    width: d.width,
                    height: d.height,
                    format: d.format,
                    offset: d.offset,
                    stride: d.stride,
                    modifier: if d.compressed {
                        DRM_FORMAT_MOD_QCOM_COMPRESSED
                    } else {
                        DRM_FORMAT_MOD_LINEAR
                    },
                },
            )
        },
        r matches Ok(l) ==> l.modifier == if d.compressed {
            0x0500_0000_0000_0001u64
        } else {
            0u64
        },
{
    if !d.has_fd {
        return Err(Unusable::NoFd);
    }
    if d.rc != 0 || d.stride == 0 {
        return Err(Unusable::BadLayout { rc: d.rc, stride: d.stride });
    }
    let modifier: u64 = if d.compressed {
        DRM_FORMAT_MOD_QCOM_COMPRESSED
    } else {
        DRM_FORMAT_MOD_LINEAR
    };
    Ok(
        Layout {
            width: d.width,
            height: d.height,
            format: d.format,
            offset: d.offset,
            stride: d.stride,
            modifier,
        },
    )
}

/// Whether to warn of compressed buffers: with the first one only. Imported
/// by the dma-buf alone such a buffer can decode wrongly, since some of its
/// state lives outside it.
pub fn warn_compressed(warned: &mut bool, layout: Layout) -> (warn: bool)
    ensures
        warn == (layout.modifier == DRM_FORMAT_MOD_QCOM_COMPRESSED && !*old(warned)),
        warn <==> layout.modifier == 0x0500_0000_0000_0001 && !*old(warned),
        *final(warned) == (*old(warned) || warn),
{
    if layout.modifier == DRM_FORMAT_MOD_QCOM_COMPRESSED && !*warned {
        *warned = true;
        true
    } else {
        false
    }
}

} // verus!
