use ihs_wl_server::action::Action;
use ihs_wl_server::buffers::BufferKey;
use ihs_wl_server::params::ViewParams;
use ihs_wl_server::staging::{
    copy_damage, explicit_modifier, fourcc, heap_layout, pick_backend, Backend, Damage, HeapLayout,
    Ring, RingSlot, ShmFormat, ShmLayout, Stage, Stager, MAX_SLOTS, MODIFIER_INVALID,
};
use ihs_wl_server::state::State;
use ihs_wl_server::submit::{Fence, Layer};
use ihs_wl_server::timing::{Report, Taken};
use ihs_wl_server::tree::single_pixel;

const ARGB8888: u32 = 0x3432_5241;

fn filled(w: usize, h: usize, pixel: u32) -> Vec<u8> {
    let mut v = Vec::new();
    for _ in 0..w * h {
        v.extend_from_slice(&pixel.to_le_bytes());
    }
    v
}

fn layout(w: i32, h: i32) -> ShmLayout {
    ShmLayout {
        offset: 0,
        width: w,
        height: h,
        stride: w * 4,
    }
}

fn all(w: i32, h: i32) -> Damage {
    Damage { x: 0, y: 0, w, h }
}

fn probe(buf: &[u8], stride: usize, x: usize, y: usize) -> u32 {
    let at = y * stride + x * 4;
    u32::from_le_bytes([buf[at], buf[at + 1], buf[at + 2], buf[at + 3]])
}

/// A view showing a toplevel.
fn bound(view: i32) -> State {
    let mut s = State::new();
    let id = s.add_toplevel(1, Some(7));
    let mut out = Vec::new();
    s.toplevel_commit(id, &mut out);
    s.view_created(view, ViewParams::default(), Some((64, 32)), &mut out);
    s
}

/// Show slot `uid`; the frame's number and the slot's buffer id.
fn show(s: &mut State, view: i32, uid: u64, generation: u64) -> (u64, u32) {
    let layers = vec![Layer {
        layer_id: 1,
        key: BufferKey::Staged(uid),
        generation,
    }];
    let sub = s.submit_begin(view, &layers, layers.len()).unwrap();
    let mut out = Vec::new();
    s.submit_accepted(view, &layers, &vec![Fence::Absent], Taken::new(), 1, &mut out);
    (sub.seq, sub.ids[0])
}

fn present(s: &mut State, view: i32, seq: u64) {
    let mut out = Vec::new();
    let report = Report {
        seq,
        ust_ns: 1,
        refresh_ns: 0,
        msc: 0,
        flags: 0,
    };
    s.frame_presented(view, report, &mut out);
}

#[test]
fn a_shm_toplevel_is_shown_through_a_staging_buffer() {
    let mut s = bound(14);
    let mut ring = Ring::new();
    let mut retired = Vec::new();
    let held = s.busy_slots(&ring);
    let stage = ring.stage(64, 32, ShmFormat::Argb8888, 1, &held, &mut retired);
    assert_eq!(stage, Stage::Grow);
    let index = ring.grown(1);
    assert_eq!(fourcc(ShmFormat::Argb8888), Some(ARGB8888));
    // A staging buffer goes as DRM_FORMAT_MOD_LINEAR.
    assert_eq!(explicit_modifier(MODIFIER_INVALID), 0);

    // Rows of the slot are wider than the client's.
    let mut slot = vec![0u8; 300 * 32];
    let src = filled(64, 32, 0xff20_4080);
    assert!(copy_damage(&mut slot, 300, &src, layout(64, 32), &vec![all(64, 32)]));
    assert_eq!(probe(&slot, 300, 5, 7), 0xff20_4080, "the pixels were not copied");
    ring.filled(index, 1);
    let (_, first) = show(&mut s, 14, 1, 1);

    // A new frame goes through the ring, in a slot of its own while the first
    // may still be on screen.
    let held = s.busy_slots(&ring);
    assert_eq!(held, vec![1]);
    let stage = ring.stage(64, 32, ShmFormat::Argb8888, 2, &held, &mut retired);
    assert_eq!(stage, Stage::Grow);
    let index = ring.grown(2);
    ring.filled(index, 2);
    let (_, second) = show(&mut s, 14, 2, 2);
    assert_ne!(first, second, "a slot the shell holds was reused");
    assert!(retired.is_empty());
}

#[test]
fn a_single_pixel_buffer_is_shown_stretched() {
    assert_eq!(
        single_pixel(0x20, 0x40, 0x10, 0x80),
        0x8020_4010,
        "ARGB, premultiplied"
    );
}

#[test]
fn a_resized_shm_buffer_retires_the_old_slots() {
    let mut s = bound(15);
    let mut ring = Ring::new();
    let mut retired = Vec::new();
    ring.stage(16, 16, ShmFormat::Xrgb8888, 1, &Vec::new(), &mut retired);
    let i = ring.grown(1);
    ring.filled(i, 1);
    let (_, old) = show(&mut s, 15, 1, 1);
    let held = s.busy_slots(&ring);
    let stage = ring.stage(32, 32, ShmFormat::Xrgb8888, 2, &held, &mut retired);
    assert_eq!(stage, Stage::Grow);
    assert_eq!(retired, vec![1]);
    let mut out = Vec::new();
    s.retire_key(BufferKey::Staged(retired[0]), &mut out);
    assert_eq!(
        out,
        vec![Action::Retire {
            view_id: 15,
            buffer_id: old
        }],
        "the old slot's import was kept"
    );
}

#[test]
fn a_reused_slot_catches_up_on_the_damage_it_missed() {
    let mut s = bound(16);
    let mut ring = Ring::new();
    let mut retired = Vec::new();
    let mut first = vec![0u8; 16 * 16 * 4];
    let mut second = vec![0u8; 16 * 16 * 4];
    let whole = vec![all(16, 16)];
    let b = layout(16, 16);

    ring.stage(16, 16, ShmFormat::Argb8888, 1, &Vec::new(), &mut retired);
    let i = ring.grown(1);
    assert!(copy_damage(&mut first, 64, &filled(16, 16, 0xffff_0000), b, &whole));
    ring.filled(i, 1);
    show(&mut s, 16, 1, 1);

    let held = s.busy_slots(&ring);
    assert_eq!(
        ring.stage(16, 16, ShmFormat::Argb8888, 2, &held, &mut retired),
        Stage::Grow
    );
    let i = ring.grown(2);
    assert!(copy_damage(&mut second, 64, &filled(16, 16, 0xff00_ff00), b, &whole));
    ring.filled(i, 2);
    let (seq, _) = show(&mut s, 16, 2, 2);
    // Shown: the first slot is free again.
    present(&mut s, 16, seq);

    let held = s.busy_slots(&ring);
    assert_eq!(
        ring.stage(16, 16, ShmFormat::Argb8888, 3, &held, &mut retired),
        Stage::Fill {
            index: 0,
            slot: RingSlot {
                uid: 1,
                commit: Some(1)
            }
        }
    );
    // All blue, but damage says only one pixel away from the probe changed.
    // The first slot missed the green frame's full damage too.
    let since = vec![all(16, 16), all(1, 1)];
    assert!(copy_damage(&mut first, 64, &filled(16, 16, 0xff00_00ff), b, &since));
    assert_eq!(probe(&first, 64, 5, 7), 0xff00_00ff);
}

#[test]
fn an_unchanged_shm_surface_reuses_its_slot() {
    let mut s = bound(17);
    let mut ring = Ring::new();
    let mut retired = Vec::new();
    ring.stage(16, 16, ShmFormat::Argb8888, 1, &Vec::new(), &mut retired);
    let i = ring.grown(1);
    ring.filled(i, 1);
    let (_, first) = show(&mut s, 17, 1, 1);
    let held = s.busy_slots(&ring);
    let stage = ring.stage(16, 16, ShmFormat::Argb8888, 1, &held, &mut retired);
    assert_eq!(
        stage,
        Stage::Show(RingSlot {
            uid: 1,
            commit: Some(1)
        })
    );
    let (_, again) = show(&mut s, 17, 1, 1);
    assert_eq!(first, again);
}

#[test]
fn a_full_ring_shows_what_it_last_had() {
    let mut ring = Ring::new();
    let mut retired = Vec::new();
    ring.stage(8, 8, ShmFormat::Argb8888, 0, &Vec::new(), &mut retired);
    let mut held = Vec::new();
    for uid in 1..=MAX_SLOTS as u64 {
        let i = ring.grown(uid);
        ring.filled(i, uid);
        held.push(uid);
    }
    let stage = ring.stage(8, 8, ShmFormat::Argb8888, 9, &held, &mut retired);
    assert_eq!(
        stage,
        Stage::Show(RingSlot {
            uid: 4,
            commit: Some(4)
        })
    );
    let mut gone = Vec::new();
    ring.drain(&mut gone);
    assert_eq!(gone, vec![1, 2, 3, 4]);
}

#[test]
fn a_format_that_is_not_staged_is_skipped() {
    let mut ring = Ring::new();
    let mut retired = Vec::new();
    assert_eq!(
        ring.stage(8, 8, ShmFormat::Other, 1, &Vec::new(), &mut retired),
        Stage::Skip
    );
    assert_eq!(fourcc(ShmFormat::Other), None);
    assert_eq!(fourcc(ShmFormat::Xrgb8888), Some(0x3432_5258));
}

#[test]
fn only_damage_is_copied() {
    let mut dst = filled(8, 8, 0);
    let src = filled(8, 8, 0x0102_0304);
    let d = vec![Damage {
        x: 2,
        y: 3,
        w: 2,
        h: 1,
    }];
    assert!(copy_damage(&mut dst, 32, &src, layout(8, 8), &d));
    for y in 0..8 {
        for x in 0..8 {
            let want = if y == 3 && (x == 2 || x == 3) {
                0x0102_0304
            } else {
                0
            };
            assert_eq!(probe(&dst, 32, x, y), want, "{x},{y}");
        }
    }
}

#[test]
fn a_pool_too_small_for_its_buffer_is_read_as_far_as_it_goes() {
    let mut dst = filled(4, 4, 0);
    let src = filled(4, 2, 0xffff_ffff);
    assert!(!copy_damage(&mut dst, 16, &src, layout(4, 4), &vec![all(4, 4)]));
    assert_eq!(probe(&dst, 16, 3, 1), 0xffff_ffff);
    assert_eq!(probe(&dst, 16, 0, 2), 0);
}

#[test]
fn a_heap_buffer_has_rows_of_64_bytes() {
    assert_eq!(
        heap_layout(17, 3),
        HeapLayout {
            stride: 128,
            len: 384
        }
    );
    assert_eq!(
        heap_layout(16, 1),
        HeapLayout {
            stride: 64,
            len: 64
        }
    );
    assert_eq!(
        heap_layout(0, -3),
        HeapLayout {
            stride: 64,
            len: 64
        }
    );
    assert_eq!(
        heap_layout(i32::MAX, i32::MAX),
        HeapLayout {
            stride: 0x2_0000_0000,
            len: 0x2_0000_0000 * 0x7fff_ffff
        }
    );
    assert_eq!(explicit_modifier(5), 5);
}

#[test]
fn staging_is_set_up_once() {
    let mut stager = Stager::new();
    assert!(stager.first_use());
    assert!(!stager.first_use());
    assert_eq!(stager.next_uid(), 1);
    assert_eq!(stager.next_uid(), 2);
    assert_eq!(pick_backend(false, true, true), Some(Backend::Heap));
    assert_eq!(pick_backend(true, true, true), Some(Backend::Gbm));
    assert_eq!(pick_backend(false, false, true), Some(Backend::Gbm));
    assert_eq!(pick_backend(false, false, false), None);
}
