use ihs_wl_server::buffers::{BufferIds, BufferKey};
use ihs_wl_server::frame::{layer_for, Source};
use ihs_wl_server::tree::{
    build, dmabuf_side, layer_id, Content, Node, Placement, Rect, Transform,
};

fn node(parent: Option<usize>, id: u32, x: i32, y: i32, w: i32, h: i32, key: u64) -> Node {
    Node {
        parent,
        layer_id: id,
        placement: Some(Placement { x, y, w, h }),
        content: Content::Shown(BufferKey::Client(key)),
        transform: Transform::Normal,
        y_inverted: false,
        opaque: Vec::new(),
        generation: 1,
    }
}

#[test]
fn a_toplevel_reaches_its_view_as_a_layer() {
    let mut top = node(None, 1, 0, 0, 100, 80, 50);
    top.opaque = vec![Rect {
        x: 0,
        y: 0,
        w: 100,
        h: 80,
    }];
    let built = build(&vec![top], &vec![0], (0, 0));
    assert_eq!(built.layers.len(), 1);
    assert_eq!(built.skipped, 0);
    let l = layer_for(
        built.layers[0],
        Source {
            x: 0,
            y: 0,
            w: 100 << 16,
            h: 80 << 16,
        },
    );
    assert_eq!((l.src_x, l.src_y, l.src_w, l.src_h), (0, 0, 100 << 16, 80 << 16));
    assert_eq!((l.dst_x, l.dst_y, l.dst_w, l.dst_h), (0, 0, 100, 80));
    assert_eq!(l.transform, 0);
    assert_eq!(l.opaque, 1, "the opaque region covers the surface");
}

#[test]
fn a_subsurface_is_a_layer_above_its_parent() {
    let nodes = vec![
        node(None, 1, 0, 0, 200, 100, 50),
        node(Some(0), 2, 10, 20, 80, 40, 51),
    ];
    let built = build(&nodes, &vec![0, 1], (0, 0));
    let (bottom, top) = (built.layers[0], built.layers[1]);
    assert_eq!((bottom.w, bottom.h), (200, 100), "the parent is at the bottom");
    assert_eq!((top.x, top.y, top.w, top.h), (10, 20, 80, 40));
    assert_ne!(bottom.layer.layer_id, top.layer.layer_id);

    // Placed below its parent, it is drawn first.
    let built = build(&nodes, &vec![1, 0], (0, 0));
    assert_eq!(built.layers[0].node, 1);

    // Committed again, each layer keeps its id.
    let mut next = 1;
    let id = layer_id(None, &mut next);
    assert_eq!((id, next), (1, 2));
    assert_eq!(layer_id(Some(id), &mut next), 1);
    assert_eq!(next, 2);
    // The last number is used too, and does not keep a surface from its id.
    next = u32::MAX;
    assert_eq!(layer_id(Some(id), &mut next), 1);
    assert_eq!(layer_id(None, &mut next), u32::MAX);
    assert_eq!(next, 0);
}

#[test]
fn positions_add_up_and_window_geometry_comes_off() {
    let nodes = vec![
        node(None, 1, 0, 0, 100, 80, 50),
        node(Some(0), 2, 50, 40, 20, 20, 51),
        node(Some(1), 3, 5, 6, 2, 2, 52),
    ];
    let built = build(&nodes, &vec![0, 1, 2], (-10, -10));
    let at: Vec<(i64, i64)> = built.layers.iter().map(|l| (l.x, l.y)).collect();
    assert_eq!(at, vec![(-10, -10), (40, 30), (45, 36)]);
}

#[test]
fn what_has_no_buffer_is_not_a_layer() {
    let mut hidden = node(Some(0), 2, 0, 0, 10, 10, 51);
    hidden.content = Content::Unshowable;
    let mut unmapped = node(Some(0), 3, 0, 0, 10, 10, 52);
    unmapped.placement = None;
    let under = node(Some(2), 4, 0, 0, 10, 10, 53);
    let mut empty = node(Some(0), 5, 0, 0, 10, 10, 54);
    empty.content = Content::Nothing;
    let nodes = vec![
        node(None, 1, 0, 0, 100, 80, 50),
        hidden,
        unmapped,
        under,
        empty,
    ];
    let built = build(&nodes, &vec![0, 1, 2, 3, 4], (0, 0));
    assert_eq!(built.layers.len(), 1);
    assert_eq!(built.skipped, 1);
}

#[test]
fn an_opaque_part_is_not_an_opaque_layer() {
    let mut top = node(None, 1, 0, 0, 100, 80, 50);
    top.opaque = vec![
        Rect {
            x: 0,
            y: 0,
            w: 99,
            h: 80,
        },
        Rect {
            x: 0,
            y: 0,
            w: 100,
            h: 79,
        },
    ];
    assert!(!build(&vec![top], &vec![0], (0, 0)).layers[0].opaque);
}

#[test]
fn numbers_out_of_range_are_brought_into_it() {
    let spec = build(
        &vec![node(None, 1, i32::MAX, 0, -5, 7, 50)],
        &vec![0],
        (0x1_0000_0000, -0x1_0000_0000),
    )
    .layers[0];
    let l = layer_for(
        spec,
        Source {
            x: i64::MIN,
            y: i64::MAX,
            w: -1,
            h: i64::MAX,
        },
    );
    assert_eq!((l.src_x, l.src_y), (i32::MIN, i32::MAX));
    assert_eq!((l.src_w, l.src_h), (0, u32::MAX));
    assert_eq!((l.dst_x, l.dst_y), (i32::MAX, i32::MIN));
    assert_eq!((l.dst_w, l.dst_h), (0, 7));
    assert_eq!(dmabuf_side(-3), 0);
    assert_eq!(dmabuf_side(3), 3);
}

#[test]
fn transforms_keep_their_protocol_numbers() {
    let all = [
        Transform::Normal,
        Transform::Rotated90,
        Transform::Rotated180,
        Transform::Rotated270,
        Transform::Flipped,
        Transform::Flipped90,
        Transform::Flipped180,
        Transform::Flipped270,
    ];
    for (n, t) in all.iter().enumerate() {
        assert_eq!(t.value(), n as u32);
        assert_eq!(t.layer_value(false), n as u32);
        // Turned back twice, a buffer is as it was.
        let back = all[t.layer_value(true) as usize];
        assert_eq!(back.layer_value(true), n as u32);
    }
    // Turned, then stored upside down: rows AB/CD turned by 90 are BD/AC, and
    // AC/BD upside down.
    let inverted: Vec<u32> = all.iter().map(|t| t.layer_value(true)).collect();
    assert_eq!(inverted, vec![6, 5, 4, 7, 2, 1, 0, 3]);
}

#[test]
fn buffer_ids_are_per_buffer_and_remember_their_views() {
    let mut ids = BufferIds::new();
    let a = ids.id_for(BufferKey::Client(1), 4);
    let b = ids.id_for(BufferKey::Staged(1), 4);
    assert_ne!(a, b, "a client's buffer and a slot are never one");
    assert_eq!(ids.id_for(BufferKey::Client(1), 5), a);
    assert_eq!(ids.destroyed(BufferKey::Client(1)), Some((a, vec![4, 5])));
    assert_eq!(ids.destroyed(BufferKey::Client(1)), None);
    ids.id_for(BufferKey::Staged(1), 6);
    ids.forget_view(4);
    assert_eq!(ids.destroyed(BufferKey::Staged(1)), Some((b, vec![6])));
}
