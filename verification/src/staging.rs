//! Shared-memory surfaces, shown through dma-bufs the server owns.
//!
//! The shell imports dma-bufs; a shared-memory buffer is plain memory. Each
//! such surface gets a small ring of linear dma-bufs. A commit copies what
//! changed since a free slot was last filled, and that slot goes to the shell
//! in the client buffer's place. The client's buffer is only read during the
//! copy.
//!
//! A slot is busy while the shell may read it. With every slot busy the ring
//! grows, up to `MAX_SLOTS`; past that the newest slot is shown again
//! unchanged and the copy waits for the next commit, whose damage then covers
//! what this one missed.

use vstd::prelude::*;

verus! {

/// Slots per surface, at most: double buffering, plus the shell's pipeline.
pub const MAX_SLOTS: usize = 4;

/// Bytes per pixel of the formats that are staged.
pub const BPP: u64 = 4;

/// DRM_FORMAT_ARGB8888.
pub const ARGB8888: u32 = 0x3432_5241;

/// DRM_FORMAT_XRGB8888.
pub const XRGB8888: u32 = 0x3432_5258;

/// DRM_FORMAT_MOD_INVALID: the modifier is not known.
pub const MODIFIER_INVALID: u64 = 0x00ff_ffff_ffff_ffff;

/// DRM_FORMAT_MOD_LINEAR.
pub const MODIFIER_LINEAR: u64 = 0;

/// The formats of shared-memory buffers.
#[derive(Clone, Copy, Debug, PartialEq, Eq, Structural)]
pub enum ShmFormat {
    Argb8888,
    Xrgb8888,
    /// One that is not shown.
    Other,
}

/// The DRM format a shared-memory format is staged in.
pub open spec fn staged_format(format: ShmFormat) -> Option<u32> {
    match format {
        ShmFormat::Argb8888 => Some(ARGB8888),
        ShmFormat::Xrgb8888 => Some(XRGB8888),
        ShmFormat::Other => None,
    }
}

/// The DRM format a shared-memory format is staged in.
pub fn fourcc(format: ShmFormat) -> (code: Option<u32>)
    ensures
        code == staged_format(format),
{
    match format {
        ShmFormat::Argb8888 => Some(ARGB8888),
        ShmFormat::Xrgb8888 => Some(XRGB8888),
        ShmFormat::Other => None,
    }
}

/// Where the pixels of a shared-memory buffer lie.
#[derive(Clone, Copy, Debug, PartialEq, Eq, Structural)]
pub struct ShmLayout {
    pub offset: i32,
    pub width: i32,
    pub height: i32,
    pub stride: i32,
}

/// A damaged part of a buffer, in pixels.
#[derive(Clone, Copy, Debug, PartialEq, Eq, Structural)]
pub struct Damage {
    pub x: i32,
    pub y: i32,
    pub w: i32,
    pub h: i32,
}

/// `v` brought into `0..=top`, where a negative `top` counts as 0.
pub open spec fn within(v: int, top: int) -> int {
    let top = if top < 0 {
        0
    } else {
        top
    };
    if v < 0 {
        0
    } else if v > top {
        top
    } else {
        v
    }
}

impl ShmLayout {
    pub open spec fn src_offset(self) -> int {
        within(self.offset as int, i32::MAX as int)
    }

    pub open spec fn src_stride(self) -> int {
        within(self.stride as int, i32::MAX as int)
    }

    /// Where the source bytes of row `row` begin, `x` pixels in.
    pub open spec fn src_at(self, row: int, x: int) -> int {
        self.src_offset() + row * self.src_stride() + x * BPP
    }
}

impl Damage {
    /// Its corners do not leave the range of coordinates.
    pub open spec fn wf(self) -> bool {
        i32::MIN <= self.x + self.w <= i32::MAX && i32::MIN <= self.y + self.h <= i32::MAX
    }

    pub open spec fn left(self, b: ShmLayout) -> int {
        within(self.x as int, b.width as int)
    }

    pub open spec fn right(self, b: ShmLayout) -> int {
        within(self.x + self.w, b.width as int)
    }

    pub open spec fn top(self, b: ShmLayout) -> int {
        within(self.y as int, b.height as int)
    }

    pub open spec fn bottom(self, b: ShmLayout) -> int {
        within(self.y + self.h, b.height as int)
    }

    /// Whether the pixel at column `x` of row `row` is damaged.
    pub open spec fn covers(self, b: ShmLayout, x: int, row: int) -> bool {
        self.left(b) <= x < self.right(b) && self.top(b) <= row < self.bottom(b)
    }
}

/// `dst` with its bytes from `d` on replaced by the `n` bytes of `src` from
/// `s` on.
pub open spec fn overwritten(dst: Seq<u8>, d: int, src: Seq<u8>, s: int, n: int) -> Seq<u8> {
    Seq::new(
        dst.len(),
        |i: int|
            if d <= i < d + n {
                src[s + (i - d)]
            } else {
                dst[i]
            },
    )
}

/// Whether row `row` of a damaged part can be read and written within bounds.
pub open spec fn row_fits(
    dst: Seq<u8>,
    dst_stride: int,
    src: Seq<u8>,
    b: ShmLayout,
    r: Damage,
    row: int,
) -> bool {
    let n = (r.right(b) - r.left(b)) * BPP;
    &&& b.src_at(row, r.left(b)) + n <= src.len()
    &&& row * dst_stride + r.left(b) * BPP + n <= dst.len()
}

/// `dst` once the rows of `r` up to `row` are copied into it, and whether all
/// of them were: a row out of bounds stops the copy.
pub open spec fn rows_copied(
    dst: Seq<u8>,
    dst_stride: int,
    src: Seq<u8>,
    b: ShmLayout,
    r: Damage,
    row: int,
) -> (Seq<u8>, bool)
    decreases row - r.top(b),
{
    if row <= r.top(b) {
        (dst, true)
    } else {
        let (before, whole) = rows_copied(dst, dst_stride, src, b, r, row - 1);
        if whole && row_fits(dst, dst_stride, src, b, r, row - 1) {
            (
                overwritten(
                    before,
                    (row - 1) * dst_stride + r.left(b) * BPP,
                    src,
                    b.src_at(row - 1, r.left(b)),
                    (r.right(b) - r.left(b)) * BPP,
                ),
                true,
            )
        } else {
            (before, false)
        }
    }
}

/// `dst` once one damaged part is copied into it.
pub open spec fn part_copied(
    dst: Seq<u8>,
    dst_stride: int,
    src: Seq<u8>,
    b: ShmLayout,
    r: Damage,
) -> (Seq<u8>, bool) {
    if r.right(b) <= r.left(b) {
        (dst, true)
    } else {
        rows_copied(dst, dst_stride, src, b, r, r.bottom(b))
    }
}

/// `dst` once the damaged parts are copied into it, in order, and whether all
/// of them were.
pub open spec fn copied(
    dst: Seq<u8>,
    dst_stride: int,
    src: Seq<u8>,
    b: ShmLayout,
    damage: Seq<Damage>,
) -> (Seq<u8>, bool)
    decreases damage.len(),
{
    if damage.len() == 0 {
        (dst, true)
    } else {
        let (before, whole) = copied(dst, dst_stride, src, b, damage.drop_last());
        if whole {
            part_copied(before, dst_stride, src, b, damage.last())
        } else {
            (before, false)
        }
    }
}

fn clamped(v: i32, top: i32) -> (c: u64)
    ensures
        c == within(v as int, top as int),
        c <= i32::MAX,
{
    if v < 0 || top < 0 {
        0
    } else if v > top {
        top as u64
    } else {
        v as u64
    }
}

/// Copy `n` bytes of `src` from `s` on over those of `dst` from `d` on.
fn copy_bytes(dst: &mut [u8], d: usize, src: &[u8], s: usize, n: usize)
    requires
        d + n <= old(dst)@.len(),
        s + n <= src@.len(),
    ensures
        final(dst)@ == overwritten(old(dst)@, d as int, src@, s as int, n as int),
{
    let ghost before = dst@;
    let dst_len: usize = dst.len();
    let src_len: usize = src.len();
    let mut i: usize = 0;
    while i < n
        invariant
            i <= n,
            d + n <= dst_len,
            dst_len == dst@.len(),
            s + n <= src_len,
            src_len == src@.len(),
            before == old(dst)@,
            dst@.len() == before.len(),
            dst@ == overwritten(before, d as int, src@, s as int, i as int),
        decreases n - i,
    {
        dst[d + i] = src[s + i];
        i += 1;
    }
}

/// Copy one damaged part; whether all of it was in bounds.
fn copy_part(dst: &mut [u8], dst_stride: u32, src: &[u8], b: ShmLayout, r: Damage) -> (whole: bool)
    requires
        r.wf(),
    ensures
        final(dst)@.len() == old(dst)@.len(),
        (final(dst)@, whole) == part_copied(old(dst)@, dst_stride as int, src@, b, r),
{
    let x0: u64 = clamped(r.x, b.width);
    let x1: u64 = clamped(r.x + r.w, b.width);
    let y0: u64 = clamped(r.y, b.height);
    let y1: u64 = clamped(r.y + r.h, b.height);
    if x1 <= x0 {
        return true;
    }
    let src_stride: u64 = clamped(b.stride, i32::MAX);
    let offset: u64 = clamped(b.offset, i32::MAX);
    let bytes: u64 = (x1 - x0) * BPP;
    let ghost before = dst@;
    let dst_len: usize = dst.len();
    let mut row: u64 = y0;
    while row < y1
        invariant
            x0 == r.left(b),
            x1 == r.right(b),
            y0 == r.top(b),
            y1 == r.bottom(b),
            x0 < x1 <= i32::MAX,
            y1 <= i32::MAX,
            y0 <= row,
            y1 < y0 ==> row == y0,
            y0 <= y1 ==> row <= y1,
            before == old(dst)@,
            src_stride == b.src_stride(),
            offset == b.src_offset(),
            src_stride <= i32::MAX,
            offset <= i32::MAX,
            bytes == (x1 - x0) * BPP,
            dst_len == before.len(),
            dst@.len() == before.len(),
            (dst@, true) == rows_copied(before, dst_stride as int, src@, b, r, row as int),
        decreases y1 - row,
    {
        assert(row * src_stride <= 0x8000_0000 * 0x8000_0000) by (nonlinear_arith)
            requires
                0 <= row <= 0x8000_0000,
                0 <= src_stride <= 0x8000_0000,
        ;
        assert(row * dst_stride <= 0x8000_0000 * 0x1_0000_0000) by (nonlinear_arith)
            requires
                0 <= row <= 0x8000_0000,
                0 <= dst_stride <= 0x1_0000_0000,
        ;
        let s: u64 = offset + row * src_stride + x0 * BPP;
        let d: u64 = row * (dst_stride as u64) + x0 * BPP;
        assert(s == b.src_at(row as int, r.left(b)));
        // A pool shrunk meanwhile, or a buffer lying about its size: stop
        // rather than read or write out of bounds.
        if s + bytes > src.len() as u64 || d + bytes > dst_len as u64 {
            proof {
                let ghost next = row + 1;
                assert(!row_fits(before, dst_stride as int, src@, b, r, row as int));
                assert(rows_copied(before, dst_stride as int, src@, b, r, next) == (dst@, false));
                rows_stay_stopped(
                    before,
                    dst_stride as int,
                    src@,
                    b,
                    r,
                    next,
                    r.bottom(b),
                );
            }
            return false;
        }
        assert(row_fits(before, dst_stride as int, src@, b, r, row as int));
        copy_bytes(dst, d as usize, src, s as usize, bytes as usize);
        row += 1;
    }
    true
}

/// Once a row was out of bounds, nothing more is copied.
proof fn rows_stay_stopped(
    dst: Seq<u8>,
    dst_stride: int,
    src: Seq<u8>,
    b: ShmLayout,
    r: Damage,
    from: int,
    to: int,
)
    requires
        r.top(b) < from <= to,
        !rows_copied(dst, dst_stride, src, b, r, from).1,
    ensures
        rows_copied(dst, dst_stride, src, b, r, to) == rows_copied(
            dst,
            dst_stride,
            src,
            b,
            r,
            from,
        ),
    decreases to - from,
{
    if from < to {
        rows_stay_stopped(dst, dst_stride, src, b, r, from, to - 1);
    }
}

/// Copy what changed from the client's buffer `src` into a staging slot's
/// memory `dst`, whose rows are `dst_stride` bytes apart. Whether all of it
/// was in bounds.
pub fn copy_damage(
    dst: &mut [u8],
    dst_stride: u32,
    src: &[u8],
    b: ShmLayout,
    damage: &Vec<Damage>,
) -> (whole: bool)
    requires
        forall|i: int| 0 <= i < damage@.len() ==> (#[trigger] damage@[i]).wf(),
    ensures
        final(dst)@.len() == old(dst)@.len(),
        (final(dst)@, whole) == copied(old(dst)@, dst_stride as int, src@, b, damage@),
        whole && 0 < dst_stride && b.width * 4 <= dst_stride && 0 <= b.offset && 0 <= b.stride
            ==> forall|i: int|
            0 <= i < final(dst)@.len() ==> {
                let row = i / (dst_stride as int);
                let byte = i % (dst_stride as int);
                #[trigger] final(dst)@[i] == if byte / 4 < b.width && row < b.height && exists|k: int|
                    0 <= k < damage@.len() && (#[trigger] damage@[k]).x <= byte / 4 < damage@[k].x
                        + damage@[k].w && damage@[k].y <= row < damage@[k].y + damage@[k].h {
                    src@[b.offset + row * b.stride + byte]
                } else {
                    old(dst)@[i]
                }
            },
{
    let ghost before = dst@;
    let mut i: usize = 0;
    assert(damage@.take(0) == Seq::<Damage>::empty());
    while i < damage.len()
        invariant
            i <= damage.len(),
            before == old(dst)@,
            dst@.len() == before.len(),
            forall|i: int| 0 <= i < damage@.len() ==> (#[trigger] damage@[i]).wf(),
            (dst@, true) == copied(before, dst_stride as int, src@, b, damage@.take(i as int)),
        decreases damage.len() - i,
    {
        proof {
            assert(damage@.take(i + 1).drop_last() == damage@.take(i as int));
            assert(damage@.take(i + 1).last() == damage@[i as int]);
        }
        if !copy_part(dst, dst_stride, src, b, damage[i]) {
            proof {
                parts_stay_stopped(before, dst_stride as int, src@, b, damage@, i + 1);
            }
            return false;
        }
        i += 1;
    }
    assert(damage@.take(i as int) == damage@);
    proof {
        if 0 < dst_stride && b.width * 4 <= dst_stride && 0 <= b.offset && 0 <= b.stride {
            assert forall|i: int| 0 <= i < dst@.len() implies ({
                let row = i / (dst_stride as int);
                let byte = i % (dst_stride as int);
                #[trigger] dst@[i] == if byte / 4 < b.width && row < b.height && exists|k: int|
                    0 <= k < damage@.len() && (#[trigger] damage@[k]).x <= byte / 4 < damage@[k].x
                        + damage@[k].w && damage@[k].y <= row < damage@[k].y + damage@[k].h {
                    src@[b.offset + row * b.stride + byte]
                } else {
                    before[i]
                }
            }) by {
                a_damaged_pixel_is_the_clients(before, dst_stride as int, src@, b, damage@, i);
            }
        }
    }
    true
}

proof fn parts_stay_stopped(
    dst: Seq<u8>,
    dst_stride: int,
    src: Seq<u8>,
    b: ShmLayout,
    damage: Seq<Damage>,
    n: int,
)
    requires
        0 < n <= damage.len(),
        !copied(dst, dst_stride, src, b, damage.take(n)).1,
    ensures
        copied(dst, dst_stride, src, b, damage) == copied(
            dst,
            dst_stride,
            src,
            b,
            damage.take(n),
        ),
    decreases damage.len() - n,
{
    if n < damage.len() {
        assert(damage.take(n + 1).drop_last() == damage.take(n));
        parts_stay_stopped(dst, dst_stride, src, b, damage, n + 1);
    } else {
        assert(damage.take(n) == damage);
    }
}

/// The source byte that byte `i` of a slot's memory stands for.
pub open spec fn source_of(b: ShmLayout, dst_stride: int, i: int) -> int {
    b.src_offset() + (i / dst_stride) * b.src_stride() + i % dst_stride
}

/// Whether byte `i` of a slot's memory is of a pixel that `damage` covers.
pub open spec fn damaged(damage: Seq<Damage>, b: ShmLayout, dst_stride: int, i: int) -> bool {
    exists|k: int|
        0 <= k < damage.len() && (#[trigger] damage[k]).covers(
            b,
            (i % dst_stride) / 4,
            i / dst_stride,
        )
}

/// Byte `i` lies between columns `a` and `e` of row `row` exactly when its
/// quotient and remainder by the row length say so.
proof fn byte_in_row(i: int, stride: int, row: int, a: int, e: int)
    requires
        0 <= i,
        0 < stride,
        0 <= a <= e <= stride,
    ensures
        (row * stride + a <= i < row * stride + e) <==> (i / stride == row && a <= i % stride < e),
        i / stride == row ==> i - row * stride == i % stride,
{
    vstd::arithmetic::div_mod::lemma_fundamental_div_mod(i, stride);
    vstd::arithmetic::div_mod::lemma_mod_bound(i, stride);
    let q = i / stride;
    assert(stride * q == q * stride) by (nonlinear_arith);
    if q < row {
        assert(q * stride + stride <= row * stride) by (nonlinear_arith)
            requires
                q + 1 <= row,
                0 < stride,
        ;
    } else if q > row {
        assert(row * stride + stride <= q * stride) by (nonlinear_arith)
            requires
                row + 1 <= q,
                0 < stride,
        ;
    }
}

proof fn rows_are_copied(
    dst: Seq<u8>,
    dst_stride: int,
    src: Seq<u8>,
    b: ShmLayout,
    r: Damage,
    row: int,
)
    requires
        0 < dst_stride,
        b.width * 4 <= dst_stride,
        r.left(b) <= r.right(b),
        rows_copied(dst, dst_stride, src, b, r, row).1,
    ensures
        rows_copied(dst, dst_stride, src, b, r, row).0.len() == dst.len(),
        forall|i: int|
            0 <= i < dst.len() ==> #[trigger] rows_copied(dst, dst_stride, src, b, r, row).0[i]
                == if r.left(b) <= (i % dst_stride) / 4 < r.right(b) && r.top(b) <= i / dst_stride
                < row {
                src[source_of(b, dst_stride, i)]
            } else {
                dst[i]
            },
    decreases row - r.top(b),
{
    if row > r.top(b) {
        rows_are_copied(dst, dst_stride, src, b, r, row - 1);
        let before = rows_copied(dst, dst_stride, src, b, r, row - 1).0;
        let after = rows_copied(dst, dst_stride, src, b, r, row).0;
        let at = r.left(b) * 4;
        let end = r.right(b) * 4;
        assert forall|i: int| 0 <= i < dst.len() implies #[trigger] after[i] == if r.left(b) <= (i
            % dst_stride) / 4 < r.right(b) && r.top(b) <= i / dst_stride < row {
            src[source_of(b, dst_stride, i)]
        } else {
            dst[i]
        } by {
            byte_in_row(i, dst_stride, row - 1, at, end);
            let m = i % dst_stride;
            assert((at <= m < end) <==> (r.left(b) <= m / 4 < r.right(b)));
            if i / dst_stride == row - 1 && at <= m < end {
                let d = (row - 1) * dst_stride + at;
                assert(i - d == m - at);
                assert(source_of(b, dst_stride, i) == b.src_at(row - 1, r.left(b)) + (i - d));
            }
        }
    }
}

/// A copy that stayed in bounds brings over every damaged pixel and leaves
/// every other byte of the slot as it was.
pub proof fn damage_is_copied_and_nothing_else(
    dst: Seq<u8>,
    dst_stride: int,
    src: Seq<u8>,
    b: ShmLayout,
    damage: Seq<Damage>,
)
    requires
        0 < dst_stride,
        b.width * 4 <= dst_stride,
        copied(dst, dst_stride, src, b, damage).1,
    ensures
        copied(dst, dst_stride, src, b, damage).0.len() == dst.len(),
        forall|i: int|
            0 <= i < dst.len() ==> #[trigger] copied(dst, dst_stride, src, b, damage).0[i]
                == if damaged(damage, b, dst_stride, i) {
                src[source_of(b, dst_stride, i)]
            } else {
                dst[i]
            },
    decreases damage.len(),
{
    if damage.len() > 0 {
        let d = damage.drop_last();
        let r = damage.last();
        damage_is_copied_and_nothing_else(dst, dst_stride, src, b, d);
        let before = copied(dst, dst_stride, src, b, d).0;
        let after = copied(dst, dst_stride, src, b, damage).0;
        if r.right(b) > r.left(b) {
            rows_are_copied(before, dst_stride, src, b, r, r.bottom(b));
        }
        assert forall|i: int| 0 <= i < dst.len() implies #[trigger] after[i] == if damaged(
            damage,
            b,
            dst_stride,
            i,
        ) {
            src[source_of(b, dst_stride, i)]
        } else {
            dst[i]
        } by {
            let col = (i % dst_stride) / 4;
            let row = i / dst_stride;
            if r.covers(b, col, row) {
                assert(damage[damage.len() - 1].covers(b, col, row));
            }
            if damaged(d, b, dst_stride, i) {
                let k = choose|k: int| 0 <= k < d.len() && (#[trigger] d[k]).covers(b, col, row);
                assert(damage[k].covers(b, col, row));
            }
            if damaged(damage, b, dst_stride, i) && !r.covers(b, col, row) {
                let k = choose|k: int|
                    0 <= k < damage.len() && (#[trigger] damage[k]).covers(b, col, row);
                assert(d[k].covers(b, col, row));
            }
        }
    }
}

/// After a copy that stayed in bounds, a byte of the slot is the client's where
/// it is of a damaged pixel of the buffer: the byte as far into the same row of
/// the client's buffer, which starts at its offset in the pool and has its own
/// stride; one that is negative counts as 0. Any other byte is as it was.
pub proof fn a_damaged_pixel_is_the_clients(
    dst: Seq<u8>,
    dst_stride: int,
    src: Seq<u8>,
    b: ShmLayout,
    damage: Seq<Damage>,
    i: int,
)
    requires
        0 < dst_stride,
        b.width * 4 <= dst_stride,
        copied(dst, dst_stride, src, b, damage).1,
        0 <= i < dst.len(),
    ensures
        ({
            let row = i / dst_stride;
            let byte = i % dst_stride;
            let offset = if b.offset < 0 {
                0
            } else {
                b.offset as int
            };
            let stride = if b.stride < 0 {
                0
            } else {
                b.stride as int
            };
            copied(dst, dst_stride, src, b, damage).0[i] == if byte / 4 < b.width && row < b.height
                && exists|k: int|
                0 <= k < damage.len() && (#[trigger] damage[k]).x <= byte / 4 < damage[k].x
                    + damage[k].w && damage[k].y <= row < damage[k].y + damage[k].h {
                src[offset + row * stride + byte]
            } else {
                dst[i]
            }
        }),
        b.offset >= 0 && b.stride >= 0 && damaged(damage, b, dst_stride, i) ==> copied(
            dst,
            dst_stride,
            src,
            b,
            damage,
        ).0[i] == src[b.offset + (i / dst_stride) * b.stride + i % dst_stride],
{
    damage_is_copied_and_nothing_else(dst, dst_stride, src, b, damage);
    let row = i / dst_stride;
    let byte = i % dst_stride;
    vstd::arithmetic::div_mod::lemma_mod_bound(i, dst_stride);
    vstd::arithmetic::div_mod::lemma_div_pos_is_pos(i, dst_stride);
    let hit = byte / 4 < b.width && row < b.height && exists|k: int|
        0 <= k < damage.len() && (#[trigger] damage[k]).x <= byte / 4 < damage[k].x + damage[k].w
            && damage[k].y <= row < damage[k].y + damage[k].h;
    if damaged(damage, b, dst_stride, i) {
        let k = choose|k: int| 0 <= k < damage.len() && (#[trigger] damage[k]).covers(
            b,
            byte / 4,
            row,
        );
        assert(damage[k].x <= byte / 4 < damage[k].x + damage[k].w);
        assert(hit);
    }
    if hit {
        let k = choose|k: int|
            0 <= k < damage.len() && (#[trigger] damage[k]).x <= byte / 4 < damage[k].x
                + damage[k].w && damage[k].y <= row < damage[k].y + damage[k].h;
        assert(damage[k].covers(b, byte / 4, row));
    }
}

/// Whether row `row` of a damaged part lies in the client's memory, of `have`
/// bytes, and in the slot's, of `room` bytes, if that row of it is in the
/// buffer at all.
pub open spec fn lies_within(
    have: int,
    room: int,
    dst_stride: int,
    b: ShmLayout,
    r: Damage,
    row: int,
) -> bool {
    let end = if r.x + r.w < b.width {
        r.x + r.w
    } else {
        b.width as int
    };
    let begin = if r.x < 0 {
        0
    } else {
        r.x as int
    };
    begin < end && 0 <= row < b.height && r.y <= row < r.y + r.h ==> b.offset + row * b.stride + end
        * 4 <= have && row * dst_stride + end * 4 <= room
}

/// A copy is whole exactly where every row of every damaged part lies in the
/// client's memory and in the slot's.
pub proof fn a_copy_is_whole_where_everything_fits(
    dst: Seq<u8>,
    dst_stride: int,
    src: Seq<u8>,
    b: ShmLayout,
    damage: Seq<Damage>,
)
    requires
        0 <= b.offset,
        0 <= b.stride,
        0 <= b.width,
        0 <= b.height,
    ensures
        copied(dst, dst_stride, src, b, damage).0.len() == dst.len(),
        copied(dst, dst_stride, src, b, damage).1 <==> forall|k: int, row: int|
            0 <= k < damage.len() ==> #[trigger] lies_within(
                src.len() as int,
                dst.len() as int,
                dst_stride,
                b,
                damage[k],
                row,
            ),
    decreases damage.len(),
{
    let have = src.len() as int;
    let room = dst.len() as int;
    if damage.len() > 0 {
        let d = damage.drop_last();
        let r = damage.last();
        a_copy_is_whole_where_everything_fits(dst, dst_stride, src, b, d);
        let before = copied(dst, dst_stride, src, b, d).0;
        if r.right(b) > r.left(b) {
            rows_are_whole(before, dst_stride, src, b, r, r.bottom(b));
        }
        assert(damage[damage.len() - 1] == r);
        assert forall|row: int|
            r.right(b) > r.left(b) && r.top(b) <= row < r.bottom(b) implies #[trigger] row_fits(
            before,
            dst_stride,
            src,
            b,
            r,
            row,
        ) == lies_within(have, room, dst_stride, b, r, row) by {}
        if copied(dst, dst_stride, src, b, damage).1 {
            assert forall|k: int, row: int| 0 <= k < damage.len() implies #[trigger] lies_within(
                have,
                room,
                dst_stride,
                b,
                damage[k],
                row,
            ) by {
                if k < d.len() {
                    assert(d[k] == damage[k]);
                    assert(lies_within(have, room, dst_stride, b, d[k], row));
                } else if r.right(b) > r.left(b) && r.top(b) <= row < r.bottom(b) {
                    assert(row_fits(before, dst_stride, src, b, r, row));
                }
            }
        } else if copied(dst, dst_stride, src, b, d).1 {
            let row = choose|row: int|
                r.top(b) <= row < r.bottom(b) && !(#[trigger] row_fits(
                    before,
                    dst_stride,
                    src,
                    b,
                    r,
                    row,
                ));
            assert(!lies_within(have, room, dst_stride, b, damage[damage.len() - 1], row));
        } else {
            let (k, row) = choose|k: int, row: int|
                0 <= k < d.len() && !(#[trigger] lies_within(
                    have,
                    room,
                    dst_stride,
                    b,
                    d[k],
                    row,
                ));
            assert(d[k] == damage[k]);
            assert(!lies_within(have, room, dst_stride, b, damage[k], row));
        }
    }
}

proof fn rows_are_whole(
    dst: Seq<u8>,
    dst_stride: int,
    src: Seq<u8>,
    b: ShmLayout,
    r: Damage,
    row: int,
)
    ensures
        rows_copied(dst, dst_stride, src, b, r, row).0.len() == dst.len(),
        rows_copied(dst, dst_stride, src, b, r, row).1 <==> forall|k: int|
            r.top(b) <= k < row ==> #[trigger] row_fits(dst, dst_stride, src, b, r, k),
    decreases row - r.top(b),
{
    if row > r.top(b) {
        rows_are_whole(dst, dst_stride, src, b, r, row - 1);
        if rows_copied(dst, dst_stride, src, b, r, row).1 {
            assert(row_fits(dst, dst_stride, src, b, r, row - 1));
        }
    }
}

/// A slot that showed the buffer but for what was damaged since shows all of
/// it once the damage is copied.
pub proof fn a_slot_catches_up(
    dst: Seq<u8>,
    dst_stride: int,
    src: Seq<u8>,
    b: ShmLayout,
    damage: Seq<Damage>,
)
    requires
        0 < dst_stride,
        b.width * 4 <= dst_stride,
        copied(dst, dst_stride, src, b, damage).1,
        forall|i: int|
            0 <= i < dst.len() && i / dst_stride < b.height && i % dst_stride < b.width * 4
                && !damaged(damage, b, dst_stride, i) ==> #[trigger] dst[i] == src[source_of(
                b,
                dst_stride,
                i,
            )],
    ensures
        forall|i: int|
            0 <= i < dst.len() && i / dst_stride < b.height && i % dst_stride < b.width * 4
                ==> #[trigger] copied(dst, dst_stride, src, b, damage).0[i] == src[source_of(
                b,
                dst_stride,
                i,
            )],
{
    damage_is_copied_and_nothing_else(dst, dst_stride, src, b, damage);
    assert forall|i: int|
        0 <= i < dst.len() && i / dst_stride < b.height && i % dst_stride < b.width
            * 4 implies #[trigger] copied(dst, dst_stride, src, b, damage).0[i] == src[source_of(
        b,
        dst_stride,
        i,
    )] by {}
}

/// Whether `src` holds every pixel `b` says it does, and `dst` has room for
/// as many rows.
pub open spec fn holds_all(dst: Seq<u8>, dst_stride: int, src: Seq<u8>, b: ShmLayout) -> bool {
    &&& b.width * 4 <= dst_stride
    &&& b.height * dst_stride <= dst.len()
    &&& b.src_offset() + (b.height - 1) * b.src_stride() + b.width * 4 <= src.len()
}

proof fn every_row_fits(
    dst: Seq<u8>,
    dst_stride: int,
    src: Seq<u8>,
    b: ShmLayout,
    r: Damage,
    row: int,
)
    requires
        0 < dst_stride,
        holds_all(dst, dst_stride, src, b),
        r.left(b) < r.right(b),
        row <= r.bottom(b),
    ensures
        rows_copied(dst, dst_stride, src, b, r, row).1,
        rows_copied(dst, dst_stride, src, b, r, row).0.len() == dst.len(),
    decreases row - r.top(b),
{
    if row > r.top(b) {
        every_row_fits(dst, dst_stride, src, b, r, row - 1);
        let last = row - 1;
        let h = b.height as int;
        let ss = b.src_stride();
        assert(last * ss <= (h - 1) * ss) by (nonlinear_arith)
            requires
                last <= h - 1,
                0 <= ss,
        ;
        assert(last * dst_stride + dst_stride <= h * dst_stride) by (nonlinear_arith)
            requires
                last + 1 <= h,
                0 < dst_stride,
        ;
        assert(row_fits(dst, dst_stride, src, b, r, last));
    }
}

/// A buffer that holds what it says is copied whole, whatever is damaged.
pub proof fn an_honest_buffer_is_copied_whole(
    dst: Seq<u8>,
    dst_stride: int,
    src: Seq<u8>,
    b: ShmLayout,
    damage: Seq<Damage>,
)
    requires
        0 < dst_stride,
        holds_all(dst, dst_stride, src, b),
    ensures
        copied(dst, dst_stride, src, b, damage).1,
        copied(dst, dst_stride, src, b, damage).0.len() == dst.len(),
    decreases damage.len(),
{
    if damage.len() > 0 {
        let r = damage.last();
        an_honest_buffer_is_copied_whole(dst, dst_stride, src, b, damage.drop_last());
        let before = copied(dst, dst_stride, src, b, damage.drop_last()).0;
        if r.left(b) < r.right(b) {
            every_row_fits(before, dst_stride, src, b, r, r.bottom(b));
        }
    }
}

/// Bytes between the rows of a buffer allocated from a heap, `w` pixels wide:
/// the least multiple of 64 that holds a row, a pitch every importer takes.
pub open spec fn heap_stride(w: int) -> int {
    (w * 4 + 63) / 64 * 64
}

/// The size of a buffer allocated from a heap.
#[derive(Clone, Copy, Debug, PartialEq, Eq, Structural)]
pub struct HeapLayout {
    pub stride: u64,
    pub len: u64,
}

/// The layout of a linear `w` by `h` buffer from a heap; no side is less than
/// a pixel.
pub fn heap_layout(w: i32, h: i32) -> (layout: HeapLayout)
    ensures
        layout.stride == heap_stride(at_least_one(w as int)),
        layout.len == layout.stride * at_least_one(h as int),
        layout.stride % 64 == 0,
        w >= 1 ==> w * 4 <= layout.stride < w * 4 + 64,
        w < 1 ==> layout.stride == 64,
        h >= 1 ==> layout.len == layout.stride * h,
        h < 1 ==> layout.len == layout.stride,
{
    let w: u64 = if w < 1 {
        1
    } else {
        w as u64
    };
    let h: u64 = if h < 1 {
        1
    } else {
        h as u64
    };
    let stride: u64 = (w * 4 + 63) / 64 * 64;
    assert(stride * h <= u64::MAX) by (nonlinear_arith)
        requires
            stride <= 0x2_0000_0000,
            h <= 0x7fff_ffff,
    ;
    HeapLayout { stride, len: stride * h }
}

/// `n`, or 1 where that is more.
pub open spec fn at_least_one(n: int) -> int {
    if n < 1 {
        1
    } else {
        n
    }
}

/// A heap buffer has room for every pixel of the buffer it stands for.
pub proof fn a_heap_buffer_holds_all(w: int, h: int)
    requires
        1 <= w,
        1 <= h,
    ensures
        w * 4 <= heap_stride(w) < w * 4 + 64,
        heap_stride(w) % 64 == 0,
{
}

/// A buffer allocated linear can come back with an unknown modifier (it was
/// allocated by usage, not by modifier). What it then is to be called, so the
/// shell imports it as linear rather than guessing.
pub fn explicit_modifier(modifier: u64) -> (m: u64)
    ensures
        m == if modifier == MODIFIER_INVALID {
            MODIFIER_LINEAR
        } else {
            modifier
        },
        modifier == 0x00ff_ffff_ffff_ffff ==> m == 0,
        modifier != 0x00ff_ffff_ffff_ffff ==> m == modifier,
{
    if modifier == MODIFIER_INVALID {
        MODIFIER_LINEAR
    } else {
        modifier
    }
}

/// Where staging buffers come from.
#[derive(Clone, Copy, Debug, PartialEq, Eq, Structural)]
pub enum Backend {
    Heap,
    Gbm,
}

/// The backend: a render node named for it is used alone; otherwise a heap
/// that opened, else gbm on a render node that did. None when nothing can be
/// had: then shared-memory surfaces are not shown.
pub fn pick_backend(node_named: bool, heap: bool, gbm: bool) -> (backend: Option<Backend>)
    ensures
        backend == if !node_named && heap {
            Some(Backend::Heap)
        } else if gbm {
            Some(Backend::Gbm)
        } else {
            None
        },
{
    if !node_named && heap {
        Some(Backend::Heap)
    } else if gbm {
        Some(Backend::Gbm)
    } else {
        None
    }
}

/// The backend, found on first use, and the slots' numbers.
#[derive(Clone, Copy, Debug, PartialEq, Eq, Structural)]
pub struct Stager {
    pub backend: Option<Backend>,
    pub tried: bool,
    pub last_uid: u64,
}

impl Stager {
    pub fn new() -> (stager: Stager)
        ensures
            stager == (Stager { backend: None, tried: false, last_uid: 0 }),
    {
        Stager { backend: None, tried: false, last_uid: 0 }
    }

    /// Whether the backend is still to be looked for. It is looked for once.
    pub fn first_use(&mut self) -> (first: bool)
        ensures
            first == !old(self).tried,
            final(self).tried,
            final(self).backend == old(self).backend,
            final(self).last_uid == old(self).last_uid,
    {
        let first: bool = !self.tried;
        self.tried = true;
        first
    }

    /// A number for a new slot, which no slot had before.
    pub fn next_uid(&mut self) -> (uid: u64)
        requires
            old(self).last_uid < u64::MAX,
        ensures
            uid == old(self).last_uid + 1,
            final(self).last_uid == uid,
            final(self).backend == old(self).backend,
            final(self).tried == old(self).tried,
    {
        self.last_uid = self.last_uid + 1;
        self.last_uid
    }
}

/// One staging buffer of a surface.
#[derive(Clone, Copy, Debug, PartialEq, Eq, Structural)]
pub struct RingSlot {
    /// What its buffer id is keyed by.
    pub uid: u64,
    /// The commit whose content the slot holds.
    pub commit: Option<u64>,
}

/// A surface's staging buffers.
#[derive(Debug)]
pub struct Ring {
    pub width: i32,
    pub height: i32,
    pub fourcc: Option<u32>,
    pub slots: Vec<RingSlot>,
    /// Index of the slot last filled.
    pub newest: Option<usize>,
}

/// What to do for a surface's current content.
#[derive(Clone, Copy, Debug, PartialEq, Eq, Structural)]
pub enum Stage {
    /// It cannot be shown.
    Skip,
    /// Show this slot as it is.
    Show(RingSlot),
    /// Copy what changed since the slot's commit into the slot at `index`.
    Fill { index: usize, slot: RingSlot },
    /// Allocate a slot first.
    Grow,
}

/// Whether none of `held` is `uid`.
pub open spec fn is_free(held: Seq<u64>, uid: u64) -> bool {
    !held.contains(uid)
}

/// The index of the first slot that nothing holds.
pub open spec fn first_free(slots: Seq<RingSlot>, held: Seq<u64>) -> Option<int>
    decreases slots.len(),
{
    if slots.len() == 0 {
        None
    } else {
        match first_free(slots.drop_last(), held) {
            Some(i) => Some(i),
            None => if is_free(held, slots.last().uid) {
                Some(slots.len() - 1)
            } else {
                None
            },
        }
    }
}

/// What is to be done with a ring for the content of `commit`, while `held`
/// may be read by the shell.
pub open spec fn next_stage(
    slots: Seq<RingSlot>,
    newest: Option<usize>,
    commit: u64,
    held: Seq<u64>,
) -> Stage {
    if newest is Some && slots[newest->0 as int].commit == Some(commit) {
        // Unchanged since it was filled.
        Stage::Show(slots[newest->0 as int])
    } else {
        match first_free(slots, held) {
            Some(i) => Stage::Fill { index: i as usize, slot: slots[i] },
            None => if slots.len() < MAX_SLOTS {
                Stage::Grow
            } else if newest is Some {
                // Every slot is on screen or queued.
                Stage::Show(slots[newest->0 as int])
            } else {
                Stage::Skip
            },
        }
    }
}

impl Ring {
    pub open spec fn wf(self) -> bool {
        &&& self.slots@.len() <= MAX_SLOTS
        &&& self.newest matches Some(n) ==> n < self.slots@.len()
        &&& forall|i: int, j: int|
            0 <= i < j < self.slots@.len() ==> self.slots@[i].uid != self.slots@[j].uid
    }

    /// Whether its slots hold pixels of this shape.
    pub open spec fn fits(self, width: i32, height: i32, format: u32) -> bool {
        self.width == width && self.height == height && self.fourcc == Some(format)
    }

    pub fn new() -> (ring: Ring)
        ensures
            ring.wf(),
            ring.width == 0,
            ring.height == 0,
            ring.fourcc is None,
            ring.slots@ == Seq::<RingSlot>::empty(),
            ring.newest is None,
    {
        Ring { width: 0, height: 0, fourcc: None, slots: Vec::new(), newest: None }
    }

    /// Take every slot out of the ring: their numbers, to retire.
    pub fn drain(&mut self, retired: &mut Vec<u64>)
        ensures
            final(self).slots@ == Seq::<RingSlot>::empty(),
            final(self).newest is None,
            final(self).width == 0,
            final(self).height == 0,
            final(self).fourcc is None,
            final(self).wf(),
            final(retired)@ == old(retired)@ + uids(old(self).slots@),
    {
        let mut i: usize = 0;
        while i < self.slots.len()
            invariant
                i <= self.slots.len(),
                self.slots@ == old(self).slots@,
                retired@ == old(retired)@ + uids(self.slots@.take(i as int)),
            decreases self.slots.len() - i,
        {
            proof {
                assert(self.slots@.take(i + 1) == self.slots@.take(i as int).push(
                    self.slots@[i as int],
                ));
                assert(uids(self.slots@.take(i + 1)) == uids(self.slots@.take(i as int)).push(
                    self.slots@[i as int].uid,
                ));
            }
            retired.push(self.slots[i].uid);
            i += 1;
        }
        assert(self.slots@.take(i as int) == self.slots@);
        self.slots.clear();
        self.newest = None;
        self.width = 0;
        self.height = 0;
        self.fourcc = None;
    }

    /// The surface's content is that of `commit`: what to show for it, while
    /// the shell may still read the slots `held`. A ring of another shape is
    /// emptied first, its slots' numbers added to `retired`.
    pub fn stage(
        &mut self,
        width: i32,
        height: i32,
        format: ShmFormat,
        commit: u64,
        held: &Vec<u64>,
        retired: &mut Vec<u64>,
    ) -> (stage: Stage)
        requires
            old(self).wf(),
        ensures
            final(self).wf(),
            match staged_format(format) {
                None => stage == Stage::Skip && *final(self) == *old(self) && final(retired)@
                    == old(retired)@,
                Some(code) => if old(self).fits(width, height, code) {
                    &&& *final(self) == *old(self)
                    &&& final(retired)@ == old(retired)@
                    &&& stage == next_stage(old(self).slots@, old(self).newest, commit, held@)
                } else {
                    &&& final(self).fits(width, height, code)
                    &&& final(self).slots@ == Seq::<RingSlot>::empty()
                    &&& final(self).newest is None
                    &&& final(retired)@ == old(retired)@ + uids(old(self).slots@)
                    &&& stage == Stage::Grow
                },
            },
    {
        let code: u32 = match fourcc(format) {
            Some(code) => code,
            None => {
                return Stage::Skip;
            },
        };
        let fits: bool = self.width == width && self.height == height && match self.fourcc {
            Some(c) => c == code,
            None => false,
        };
        if !fits {
            self.drain(retired);
            self.width = width;
            self.height = height;
            self.fourcc = Some(code);
            return Stage::Grow;
        }
        if let Some(newest) = self.newest {
            let slot = self.slots[newest];
            if let Some(c) = slot.commit {
                if c == commit {
                    return Stage::Show(slot);
                }
            }
        }
        let mut i: usize = 0;
        assert(self.slots@.take(0) == Seq::<RingSlot>::empty());
        while i < self.slots.len()
            invariant
                i <= self.slots.len(),
                self.wf(),
                *self == *old(self),
                retired@ == old(retired)@,
                staged_format(format) == Some(code),
                old(self).fits(width, height, code),
                first_free(self.slots@.take(i as int), held@) is None,
                !(self.newest is Some && self.slots@[self.newest->0 as int].commit == Some(commit)),
            decreases self.slots.len() - i,
        {
            let slot = self.slots[i];
            proof {
                assert(self.slots@.take(i + 1).drop_last() == self.slots@.take(i as int));
                assert(self.slots@.take(i + 1).last() == slot);
            }
            if !lists(held, slot.uid) {
                proof {
                    first_free_is_first(self.slots@, held@, i as int);
                }
                return Stage::Fill { index: i, slot };
            }
            i += 1;
        }
        assert(self.slots@.take(i as int) == self.slots@);
        if self.slots.len() < MAX_SLOTS {
            Stage::Grow
        } else {
            match self.newest {
                Some(newest) => Stage::Show(self.slots[newest]),
                None => Stage::Skip,
            }
        }
    }

    /// The slot `uid` was allocated for the ring: where it now is.
    pub fn grown(&mut self, uid: u64) -> (index: usize)
        requires
            old(self).wf(),
            old(self).slots@.len() < MAX_SLOTS,
            forall|i: int| 0 <= i < old(self).slots@.len() ==> old(self).slots@[i].uid != uid,
        ensures
            final(self).wf(),
            index == old(self).slots@.len(),
            final(self).slots@ == old(self).slots@.push(RingSlot { uid, commit: None }),
            final(self).newest == old(self).newest,
            final(self).width == old(self).width,
            final(self).height == old(self).height,
            final(self).fourcc == old(self).fourcc,
    {
        self.slots.push(RingSlot { uid, commit: None });
        self.slots.len() - 1
    }

    /// The slot at `index` now holds the content of `commit`.
    pub fn filled(&mut self, index: usize, commit: u64)
        requires
            old(self).wf(),
            index < old(self).slots@.len(),
        ensures
            final(self).wf(),
            final(self).newest == Some(index),
            final(self).slots@ == old(self).slots@.update(
                index as int,
                RingSlot { uid: old(self).slots@[index as int].uid, commit: Some(commit) },
            ),
            final(self).width == old(self).width,
            final(self).height == old(self).height,
            final(self).fourcc == old(self).fourcc,
    {
        let uid: u64 = self.slots[index].uid;
        self.slots[index] = RingSlot { uid, commit: Some(commit) };
        self.newest = Some(index);
    }
}

/// The numbers of `slots`.
pub open spec fn uids(slots: Seq<RingSlot>) -> Seq<u64> {
    slots.map_values(|s: RingSlot| s.uid)
}

fn lists(held: &Vec<u64>, uid: u64) -> (found: bool)
    ensures
        found == held@.contains(uid),
{
    let mut i: usize = 0;
    while i < held.len()
        invariant
            i <= held.len(),
            forall|j: int| 0 <= j < i ==> held@[j] != uid,
        decreases held.len() - i,
    {
        if held[i] == uid {
            assert(held@[i as int] == uid);
            return true;
        }
        i += 1;
    }
    false
}

proof fn first_free_is_first(slots: Seq<RingSlot>, held: Seq<u64>, i: int)
    requires
        0 <= i < slots.len(),
        is_free(held, slots[i].uid),
        first_free(slots.take(i), held) is None,
    ensures
        first_free(slots, held) == Some(i),
    decreases slots.len(),
{
    if i == slots.len() - 1 {
        assert(slots.take(i) == slots.drop_last());
    } else {
        let d = slots.drop_last();
        assert(d.take(i) == slots.take(i));
        first_free_is_first(d, held, i);
    }
}

/// The slot to fill is one that the shell does not read, and a slot shown
/// again for unchanged content already holds it.
pub proof fn a_slot_in_use_is_never_overwritten(
    slots: Seq<RingSlot>,
    newest: Option<usize>,
    commit: u64,
    held: Seq<u64>,
)
    requires
        slots.len() <= MAX_SLOTS,
        newest matches Some(n) ==> n < slots.len(),
    ensures
        next_stage(slots, newest, commit, held) matches Stage::Fill { index, slot } ==> index
            < slots.len() && slot == slots[index as int] && !held.contains(slot.uid),
        next_stage(slots, newest, commit, held) is Grow ==> slots.len() < MAX_SLOTS && forall|
            i: int,
        |
            0 <= i < slots.len() ==> held.contains((#[trigger] slots[i]).uid),
{
    first_free_is_free(slots, held);
}

proof fn first_free_is_free(slots: Seq<RingSlot>, held: Seq<u64>)
    ensures
        match first_free(slots, held) {
            Some(i) => 0 <= i < slots.len() && is_free(held, slots[i].uid),
            None => forall|i: int|
                0 <= i < slots.len() ==> held.contains((#[trigger] slots[i]).uid),
        },
    decreases slots.len(),
{
    if slots.len() > 0 {
        let d = slots.drop_last();
        first_free_is_free(d, held);
        if first_free(slots, held) is None {
            assert forall|i: int| 0 <= i < slots.len() implies held.contains(
                (#[trigger] slots[i]).uid,
            ) by {
                if i < d.len() {
                    assert(d[i] == slots[i]);
                }
            }
        }
    }
}

/// What a surface's content is shown from: the newest slot where that already
/// holds it; else the first slot that the shell does not read is filled; else
/// a slot is added while there are fewer than four; else the newest is shown
/// as it is, and with none there is nothing to show.
pub proof fn what_a_commit_is_shown_from(
    slots: Seq<RingSlot>,
    newest: Option<usize>,
    commit: u64,
    held: Seq<u64>,
)
    requires
        slots.len() <= MAX_SLOTS,
        newest matches Some(n) ==> n < slots.len(),
    ensures
        ({
            let stage = next_stage(slots, newest, commit, held);
            let current = newest is Some && slots[newest->0 as int].commit == Some(commit);
            &&& current ==> stage == Stage::Show(slots[newest->0 as int])
            &&& forall|i: int|
                !current && 0 <= i < slots.len() && !held.contains((#[trigger] slots[i]).uid) && (
                forall|j: int| 0 <= j < i ==> held.contains((#[trigger] slots[j]).uid))
                    ==> stage == (Stage::Fill { index: i as usize, slot: slots[i] })
            &&& !current && (forall|i: int|
                0 <= i < slots.len() ==> held.contains((#[trigger] slots[i]).uid))
                ==> if slots.len() < 4 {
                stage == Stage::Grow
            } else if newest is Some {
                stage == Stage::Show(slots[newest->0 as int])
            } else {
                stage == Stage::Skip
            }
        }),
{
    first_free_is_free(slots, held);
    let current = newest is Some && slots[newest->0 as int].commit == Some(commit);
    assert forall|i: int|
        !current && 0 <= i < slots.len() && !held.contains((#[trigger] slots[i]).uid) && (forall|
            j: int,
        |
            0 <= j < i ==> held.contains((#[trigger] slots[j]).uid)) implies next_stage(
        slots,
        newest,
        commit,
        held,
    ) == (Stage::Fill { index: i as usize, slot: slots[i] }) by {
        first_free_is_free(slots.take(i), held);
        if first_free(slots.take(i), held) is Some {
            let k = first_free(slots.take(i), held)->0;
            assert(slots.take(i)[k] == slots[k]);
        }
        first_free_is_first(slots, held, i);
    }
}

/// The two formats that are staged, by their DRM numbers; nothing else is.
pub proof fn which_formats_are_staged()
    ensures
        staged_format(ShmFormat::Argb8888) == Some(0x3432_5241u32),
        staged_format(ShmFormat::Xrgb8888) == Some(0x3432_5258u32),
        staged_format(ShmFormat::Other) is None,
{
}

/// A ring is kept for content of the same size and format, and for no other;
/// the slots of one that is not are retired, each by its own number.
pub proof fn a_ring_is_kept_for_one_shape(
    ring: Ring,
    width: i32,
    height: i32,
    format: u32,
    i: int,
)
    ensures
        ring.fits(width, height, format) <==> ring.width == width && ring.height == height
            && ring.fourcc == Some(format),
        uids(ring.slots@).len() == ring.slots@.len(),
        0 <= i < ring.slots@.len() ==> uids(ring.slots@)[i] == ring.slots@[i].uid,
{
}

} // verus!
