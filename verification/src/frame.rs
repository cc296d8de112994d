//! What is put into a layer's description for the shell.

use vstd::prelude::*;

use crate::tree::LayerSpec;

verus! {

/// Planes of a dma-buf, at most.
pub const MAX_PLANES: usize = 4;

/// A plane of a layer's buffer: the dma-buf it lies in, and where.
#[derive(Clone, Copy, Debug, PartialEq, Eq, Structural)]
pub struct PlaneIn {
    pub file: u64,
    pub offset: u32,
    pub stride: u32,
}

/// A plane as the shell is told of it: the index of the plane whose fd it
/// shares, its own where it is the first in its dma-buf.
#[derive(Clone, Copy, Debug, PartialEq, Eq, Structural)]
pub struct PlaneOut {
    pub fd_of: usize,
    pub offset: u32,
    pub stride: u32,
}

/// Whether plane `i` is the first to lie in `file`.
pub open spec fn first_in(planes: Seq<PlaneIn>, file: u64, i: int) -> bool {
    &&& 0 <= i < planes.len()
    &&& planes[i].file == file
    &&& forall|k: int| 0 <= k < i ==> (#[trigger] planes[k]).file != file
}

/// The planes of a layer's frame: the first four. Planes of one dma-buf go as
/// one fd, so one duplicate is made for each dma-buf.
pub fn frame_planes(planes: &Vec<PlaneIn>) -> (out: Vec<PlaneOut>)
    ensures
        out@.len() == if planes@.len() > MAX_PLANES {
            MAX_PLANES as nat
        } else {
            planes@.len()
        },
        forall|i: int|
            0 <= i < out@.len() ==> (#[trigger] out@[i]).offset == planes@[i].offset
                && out@[i].stride == planes@[i].stride && out@[i].fd_of <= i && first_in(
                planes@,
                planes@[i].file,
                out@[i].fd_of as int,
            ),
        out@.len() <= 4,
        planes@.len() <= 4 ==> out@.len() == planes@.len(),
        forall|i: int|
            0 <= i < out@.len() ==> planes@[(#[trigger] out@[i]).fd_of as int].file
                == planes@[i].file,
        forall|i: int, k: int|
            0 <= i < out@.len() && 0 <= k < (#[trigger] out@[i]).fd_of ==> (#[trigger] planes@[k]).file
                != planes@[i].file,
{
    let n: usize = if planes.len() > MAX_PLANES {
        MAX_PLANES
    } else {
        planes.len()
    };
    let mut out: Vec<PlaneOut> = Vec::new();
    let mut i: usize = 0;
    while i < n
        invariant
            i <= n <= planes.len(),
            out@.len() == i,
            forall|k: int|
                0 <= k < i ==> (#[trigger] out@[k]).offset == planes@[k].offset && out@[k].stride
                    == planes@[k].stride && out@[k].fd_of <= k && first_in(
                    planes@,
                    planes@[k].file,
                    out@[k].fd_of as int,
                ),
        decreases n - i,
    {
        let p = planes[i];
        let mut first: usize = 0;
        while planes[first].file != p.file
            invariant
                first <= i < planes.len(),
                p == planes@[i as int],
                forall|k: int| 0 <= k < first ==> (#[trigger] planes@[k]).file != p.file,
            decreases i - first,
        {
            first += 1;
        }
        out.push(PlaneOut { fd_of: first, offset: p.offset, stride: p.stride });
        i += 1;
    }
    out
}

/// The part of a buffer that is shown, in its own pixels, 16.16 fixed point.
#[derive(Clone, Copy, Debug, PartialEq, Eq, Structural)]
pub struct Source {
    pub x: i64,
    pub y: i64,
    pub w: i64,
    pub h: i64,
}

/// A layer as the shell is told of it.
#[derive(Clone, Copy, Debug, PartialEq, Eq, Structural)]
pub struct ShellLayer {
    pub layer_id: u32,
    pub src_x: i32,
    pub src_y: i32,
    pub src_w: u32,
    pub src_h: u32,
    pub dst_x: i32,
    pub dst_y: i32,
    pub dst_w: u32,
    pub dst_h: u32,
    pub transform: u32,
    pub opaque: u8,
}

/// `v`, or the nearest bound of `lo..=hi`.
pub open spec fn clamped(v: int, lo: int, hi: int) -> int {
    if v < lo {
        lo
    } else if v > hi {
        hi
    } else {
        v
    }
}

fn clamp_i(v: i64) -> (c: i32)
    ensures
        c == clamped(v as int, i32::MIN as int, i32::MAX as int),
{
    if v < -0x8000_0000 {
        i32::MIN
    } else if v > 0x7fff_ffff {
        i32::MAX
    } else {
        v as i32
    }
}

fn clamp_u(v: i64) -> (c: u32)
    ensures
        c == clamped(v as int, 0, u32::MAX as int),
{
    if v < 0 {
        0
    } else if v > 0xffff_ffff {
        u32::MAX
    } else {
        v as u32
    }
}

/// The description of a layer: every number brought into its field's range.
pub fn layer_for(spec: LayerSpec, src: Source) -> (layer: ShellLayer)
    ensures
        layer.layer_id == spec.layer.layer_id,
        layer.src_x == clamped(src.x as int, i32::MIN as int, i32::MAX as int),
        layer.src_y == clamped(src.y as int, i32::MIN as int, i32::MAX as int),
        layer.src_w == clamped(src.w as int, 0, u32::MAX as int),
        layer.src_h == clamped(src.h as int, 0, u32::MAX as int),
        layer.dst_x == clamped(spec.x as int, i32::MIN as int, i32::MAX as int),
        layer.dst_y == clamped(spec.y as int, i32::MIN as int, i32::MAX as int),
        layer.dst_w == clamped(spec.w as int, 0, u32::MAX as int),
        layer.dst_h == clamped(spec.h as int, 0, u32::MAX as int),
        i32::MIN <= spec.x <= i32::MAX ==> layer.dst_x == spec.x,
        i32::MIN <= spec.y <= i32::MAX ==> layer.dst_y == spec.y,
        0 <= spec.w <= u32::MAX ==> layer.dst_w == spec.w,
        0 <= spec.h <= u32::MAX ==> layer.dst_h == spec.h,
        i32::MIN <= src.x <= i32::MAX ==> layer.src_x == src.x,
        i32::MIN <= src.y <= i32::MAX ==> layer.src_y == src.y,
        0 <= src.w <= u32::MAX ==> layer.src_w == src.w,
        0 <= src.h <= u32::MAX ==> layer.src_h == src.h,
        layer.transform == spec.transform,
        layer.opaque == if spec.opaque {
            1u8
        } else {
            0u8
        },
{
    ShellLayer {
        layer_id: spec.layer.layer_id,
        src_x: clamp_i(src.x),
        src_y: clamp_i(src.y),
        src_w: clamp_u(src.w),
        src_h: clamp_u(src.h),
        dst_x: clamp_i(spec.x),
        dst_y: clamp_i(spec.y),
        dst_w: clamp_u(spec.w as i64),
        dst_h: clamp_u(spec.h as i64),
        transform: spec.transform,
        opaque: if spec.opaque {
            1
        } else {
            0
        },
    }
}

/// A number in range goes over as it is; another as the bound it passed.
pub proof fn only_numbers_out_of_range_change(v: int, lo: int, hi: int)
    requires
        lo <= hi,
    ensures
        lo <= v <= hi ==> clamped(v, lo, hi) == v,
        v < lo ==> clamped(v, lo, hi) == lo,
        v > hi ==> clamped(v, lo, hi) == hi,
{
}

/// Two planes share an fd exactly where they lie in one dma-buf: each goes
/// with the first plane there.
pub proof fn planes_of_one_file_share_an_fd(planes: Seq<PlaneIn>, i: int, j: int, a: int, b: int)
    requires
        0 <= i < planes.len(),
        0 <= j < planes.len(),
        first_in(planes, planes[i].file, a),
        first_in(planes, planes[j].file, b),
    ensures
        a == b <==> planes[i].file == planes[j].file,
        a <= i,
        planes[a].file == planes[i].file,
{
}

} // verus!
