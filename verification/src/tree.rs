//! A toplevel's committed surface tree, as the layer list the shell draws.
//!
//! Every surface with a buffer attached becomes one layer, bottom to top in
//! the stacking order the client asked for: the buffer, where it lands in the
//! view, and its orientation. The shell treats each exactly like a Flutter
//! layer, compositing it or putting it on a plane of its own. A shared-memory
//! buffer goes as the staging slot it is copied into.

use vstd::prelude::*;

use crate::buffers::BufferKey;
use crate::submit::Layer;

verus! {

/// How a buffer is turned to be shown.
#[derive(Clone, Copy, Debug, PartialEq, Eq, Structural)]
pub enum Transform {
    Normal,
    Rotated90,
    Rotated180,
    Rotated270,
    Flipped,
    Flipped90,
    Flipped180,
    Flipped270,
}

impl Transform {
    /// The wl_output.transform number, which the shell shares: quarter turns,
    /// and 4 more for a flipped one.
    pub open spec fn number(self) -> u32 {
        match self {
            Transform::Normal => 0,
            Transform::Rotated90 => 1,
            Transform::Rotated180 => 2,
            Transform::Rotated270 => 3,
            Transform::Flipped => 4,
            Transform::Flipped90 => 5,
            Transform::Flipped180 => 6,
            Transform::Flipped270 => 7,
        }
    }

    /// The number of a buffer turned like this and then stored upside down:
    /// mirrored and turned halfway besides. A mirror after the turns is one
    /// before turns the other way.
    pub open spec fn inverted_number(self) -> int {
        let turns = (6 - self.number() % 4) % 4;
        if self.number() < 4 {
            turns + 4
        } else {
            turns
        }
    }

    /// The wl_output.transform number.
    pub fn value(self) -> (n: u32)
        ensures
            n == self.number(),
    {
        match self {
            Transform::Normal => 0,
            Transform::Rotated90 => 1,
            Transform::Rotated180 => 2,
            Transform::Rotated270 => 3,
            Transform::Flipped => 4,
            Transform::Flipped90 => 5,
            Transform::Flipped180 => 6,
            Transform::Flipped270 => 7,
        }
    }

    /// The number of a layer's orientation: its buffer's, turned back where
    /// the buffer is stored upside down.
    pub fn layer_value(self, y_inverted: bool) -> (n: u32)
        ensures
            n == if y_inverted {
                self.inverted_number()
            } else {
                self.number() as int
            },
    {
        let n: u32 = self.value();
        if y_inverted {
            let turns: u32 = (6 - n % 4) % 4;
            if n < 4 {
                turns + 4
            } else {
                turns
            }
        } else {
            n
        }
    }
}

/// A rectangle in pixels.
#[derive(Clone, Copy, Debug, PartialEq, Eq, Structural)]
pub struct Rect {
    pub x: i32,
    pub y: i32,
    pub w: i32,
    pub h: i32,
}

impl Rect {
    /// Whether it covers a surface of this size, which starts at 0, 0.
    pub open spec fn covers(self, w: i32, h: i32) -> bool {
        self.x <= 0 && self.y <= 0 && w <= self.x + self.w && h <= self.y + self.h
    }
}

/// Where a surface lies on its parent, and the size it is shown at.
#[derive(Clone, Copy, Debug, PartialEq, Eq, Structural)]
pub struct Placement {
    pub x: i32,
    pub y: i32,
    pub w: i32,
    pub h: i32,
}

/// What is attached to a surface.
#[derive(Clone, Copy, Debug, PartialEq, Eq, Structural)]
pub enum Content {
    Nothing,
    /// A buffer that is shown, as is or through a staging slot.
    Shown(BufferKey),
    /// A buffer that cannot be shown: a shared-memory format that is not
    /// staged, or nothing to stage it with.
    Unshowable,
}

/// A surface of a tree.
#[derive(Debug)]
pub struct Node {
    /// The surface it is part of; the tree's root has none. Parents come
    /// before their children.
    pub parent: Option<usize>,
    pub layer_id: u32,
    /// None while nothing of it is mapped.
    pub placement: Option<Placement>,
    pub content: Content,
    pub transform: Transform,
    /// Its buffer is stored upside down.
    pub y_inverted: bool,
    /// The parts its client says are opaque.
    pub opaque: Vec<Rect>,
    /// How often its content was updated.
    pub generation: u64,
}

/// One layer of a view, before the buffer ids and fds are filled in.
#[derive(Clone, Copy, Debug, PartialEq, Eq, Structural)]
pub struct LayerSpec {
    /// The surface it shows.
    pub node: usize,
    pub layer: Layer,
    /// Where it lands, in view-local pixels.
    pub x: i64,
    pub y: i64,
    pub w: i32,
    pub h: i32,
    pub transform: u32,
    /// Every pixel of it is opaque.
    pub opaque: bool,
}

/// The layers, and how many surfaces had a buffer that could not be shown.
#[derive(Debug)]
pub struct Built {
    pub layers: Vec<LayerSpec>,
    pub skipped: usize,
}

/// Whether every parent comes before its children.
pub open spec fn parents_first(nodes: Seq<Node>) -> bool {
    forall|i: int|
        0 <= i < nodes.len() ==> ((#[trigger] nodes[i]).parent matches Some(p) ==> p < i)
}

/// Whether surface `i` is part of what is shown: everything it is placed on
/// is mapped.
pub open spec fn reached(nodes: Seq<Node>, i: int) -> bool
    decreases i,
{
    match nodes[i].parent {
        None => true,
        Some(p) => p < i && nodes[p as int].placement is Some && reached(nodes, p as int),
    }
}

/// Where surface `i`'s parent lies in the view, horizontally; the root is
/// placed at `start`.
pub open spec fn base_x(nodes: Seq<Node>, start: int, i: int) -> int
    decreases i,
{
    match nodes[i].parent {
        None => start,
        Some(p) => if p < i && nodes[p as int].placement is Some {
            base_x(nodes, start, p as int) + nodes[p as int].placement->0.x
        } else {
            start
        },
    }
}

/// Where surface `i`'s parent lies in the view, vertically.
pub open spec fn base_y(nodes: Seq<Node>, start: int, i: int) -> int
    decreases i,
{
    match nodes[i].parent {
        None => start,
        Some(p) => if p < i && nodes[p as int].placement is Some {
            base_y(nodes, start, p as int) + nodes[p as int].placement->0.y
        } else {
            start
        },
    }
}

/// Whether a client calls all of a surface of this size opaque.
pub open spec fn all_opaque(opaque: Seq<Rect>, w: i32, h: i32) -> bool {
    exists|k: int| 0 <= k < opaque.len() && (#[trigger] opaque[k]).covers(w, h)
}

/// Whether surface `i` is drawn.
pub open spec fn drawn(nodes: Seq<Node>, i: int) -> bool {
    reached(nodes, i) && nodes[i].placement is Some && nodes[i].content is Shown
}

/// The layer that surface `i` is drawn as.
pub open spec fn layer_of(nodes: Seq<Node>, x: int, y: int, i: int) -> LayerSpec {
    let n = nodes[i];
    let at = n.placement->0;
    LayerSpec {
        node: i as usize,
        layer: Layer { layer_id: n.layer_id, key: n.content->Shown_0, generation: n.generation },
        x: (base_x(nodes, x, i) + at.x) as i64,
        y: (base_y(nodes, y, i) + at.y) as i64,
        w: at.w,
        h: at.h,
        transform: if n.y_inverted {
            n.transform.inverted_number() as u32
        } else {
            n.transform.number()
        },
        opaque: all_opaque(n.opaque@, at.w, at.h),
    }
}

/// The layers of the surfaces `order`, in that order.
pub open spec fn layers_of(nodes: Seq<Node>, order: Seq<usize>, x: int, y: int) -> Seq<LayerSpec>
    decreases order.len(),
{
    if order.len() == 0 {
        Seq::empty()
    } else {
        let before = layers_of(nodes, order.drop_last(), x, y);
        let i = order.last() as int;
        if drawn(nodes, i) {
            before.push(layer_of(nodes, x, y, i))
        } else {
            before
        }
    }
}

/// How many of the surfaces `order` have a buffer that cannot be shown.
pub open spec fn skipped_of(nodes: Seq<Node>, order: Seq<usize>) -> nat
    decreases order.len(),
{
    if order.len() == 0 {
        0
    } else {
        let before = skipped_of(nodes, order.drop_last());
        let n = nodes[order.last() as int];
        if reached(nodes, order.last() as int) && n.placement is Some && n.content
            == Content::Unshowable {
            before + 1
        } else {
            before
        }
    }
}

fn covered(opaque: &Vec<Rect>, w: i32, h: i32) -> (yes: bool)
    ensures
        yes == all_opaque(opaque@, w, h),
{
    let mut i: usize = 0;
    while i < opaque.len()
        invariant
            i <= opaque.len(),
            forall|k: int| 0 <= k < i ==> !(#[trigger] opaque@[k]).covers(w, h),
        decreases opaque.len() - i,
    {
        let r = opaque[i];
        if r.x <= 0 && r.y <= 0 && w as i64 <= r.x as i64 + r.w as i64 && h as i64 <= r.y as i64
            + r.h as i64 {
            assert(opaque@[i as int].covers(w, h));
            return true;
        }
        i += 1;
    }
    false
}

/// The layers of a tree, bottom to top. `order` lists its surfaces in the
/// order they are drawn; `start` is where in the view its root is placed.
pub fn build(nodes: &Vec<Node>, order: &Vec<usize>, start: (i64, i64)) -> (built: Built)
    requires
        -0x1_0000_0000 <= start.0 <= 0x1_0000_0000,
        -0x1_0000_0000 <= start.1 <= 0x1_0000_0000,
        parents_first(nodes@),
        nodes@.len() <= 0x7fff_ffff,
        forall|i: int| 0 <= i < order@.len() ==> (#[trigger] order@[i]) < nodes@.len(),
    ensures
        built.layers@ == layers_of(nodes@, order@, start.0 as int, start.1 as int),
        built.skipped == skipped_of(nodes@, order@),
        forall|k: int|
            0 <= k < built.layers@.len() ==> {
                let l = #[trigger] built.layers@[k];
                let n = nodes@[l.node as int];
                &&& l.node < nodes@.len()
                &&& n.content == Content::Shown(l.layer.key)
                &&& l.layer.layer_id == n.layer_id
                &&& l.layer.generation == n.generation
                &&& n.placement matches Some(at) && l.w == at.w && l.h == at.h
                &&& !n.y_inverted ==> l.transform == n.transform.number()
                &&& n.y_inverted ==> l.transform == n.transform.inverted_number()
                &&& l.opaque <==> exists|i: int|
                    0 <= i < n.opaque@.len() && (#[trigger] n.opaque@[i]).x <= 0 && n.opaque@[i].y
                        <= 0 && n.opaque@[i].x + n.opaque@[i].w >= l.w && n.opaque@[i].y
                        + n.opaque@[i].h >= l.h
            },
{
    let (start_x, start_y): (i64, i64) = start;
    // Where each surface's parent lies, once that is known to be shown.
    let mut bases: Vec<Option<(i64, i64)>> = Vec::new();
    let mut i: usize = 0;
    while i < nodes.len()
        invariant
            i <= nodes.len(),
            nodes@.len() <= 0x7fff_ffff,
            parents_first(nodes@),
            -0x1_0000_0000 <= start_x <= 0x1_0000_0000,
            -0x1_0000_0000 <= start_y <= 0x1_0000_0000,
            bases@.len() == i,
            forall|k: int|
                0 <= k < i ==> match #[trigger] bases@[k] {
                    Some((x, y)) => reached(nodes@, k) && x == base_x(nodes@, start_x as int, k)
                        && y == base_y(nodes@, start_y as int, k) && -(k + 2) * 0x8000_0000 <= x
                        <= (k + 2) * 0x8000_0000 && -(k + 2) * 0x8000_0000 <= y <= (k + 2)
                        * 0x8000_0000,
                    None => !reached(nodes@, k),
                },
        decreases nodes.len() - i,
    {
        let base: Option<(i64, i64)> = match nodes[i].parent {
            None => Some((start_x, start_y)),
            Some(p) => {
                assert(nodes@[i as int].parent == Some(p));
                let above = bases[p];
                assert(bases@[p as int] == above);
                match above {
                    Some((x, y)) => match nodes[p].placement {
                        Some(at) => Some((x + at.x as i64, y + at.y as i64)),
                        None => None,
                    },
                    None => None,
                }
            },
        };
        bases.push(base);
        i += 1;
    }
    let mut layers: Vec<LayerSpec> = Vec::new();
    let mut skipped: usize = 0;
    let mut k: usize = 0;
    assert(order@.take(0) == Seq::<usize>::empty());
    while k < order.len()
        invariant
            k <= order.len(),
            nodes@.len() <= 0x7fff_ffff,
            bases@.len() == nodes@.len(),
            forall|i: int| 0 <= i < order@.len() ==> (#[trigger] order@[i]) < nodes@.len(),
            forall|k: int|
                0 <= k < nodes@.len() ==> match #[trigger] bases@[k] {
                    Some((x, y)) => reached(nodes@, k) && x == base_x(nodes@, start_x as int, k)
                        && y == base_y(nodes@, start_y as int, k) && -(k + 2) * 0x8000_0000 <= x
                        <= (k + 2) * 0x8000_0000 && -(k + 2) * 0x8000_0000 <= y <= (k + 2)
                        * 0x8000_0000,
                    None => !reached(nodes@, k),
                },
            layers@ == layers_of(nodes@, order@.take(k as int), start_x as int, start_y as int),
            skipped == skipped_of(nodes@, order@.take(k as int)),
            skipped <= k,
        decreases order.len() - k,
    {
        let n: usize = order[k];
        proof {
            assert(order@.take(k + 1).drop_last() == order@.take(k as int));
            assert(order@.take(k + 1).last() == n);
            assert(order@[k as int] < nodes@.len());
        }
        let base = bases[n];
        assert(bases@[n as int] == base);
        if let Some((x, y)) = base {
            let node = &nodes[n];
            if let Some(at) = node.placement {
                match node.content {
                    Content::Shown(key) => {
                        layers.push(
                            LayerSpec {
                                node: n,
                                layer: Layer {
                                    layer_id: node.layer_id,
                                    key,
                                    generation: node.generation,
                                },
                                x: x + at.x as i64,
                                y: y + at.y as i64,
                                w: at.w,
                                h: at.h,
                                transform: node.transform.layer_value(node.y_inverted),
                                opaque: covered(&node.opaque, at.w, at.h),
                            },
                        );
                    },
                    Content::Unshowable => {
                        skipped += 1;
                    },
                    Content::Nothing => {},
                }
            }
        }
        k += 1;
    }
    assert(order@.take(k as int) == order@);
    proof {
        each_layer_shows_its_surface(nodes@, order@, start_x as int, start_y as int);
    }
    Built { layers, skipped }
}

/// A surface's layer id: the one it has, or the next. Ids count up from 1, and
/// wrap once every number was used.
pub fn layer_id(has: Option<u32>, next: &mut u32) -> (id: u32)
    ensures
        match has {
            Some(had) => id == had && *final(next) == *old(next),
            None => id == *old(next) && *final(next) == if *old(next) == u32::MAX {
                0
            } else {
                *old(next) + 1
            },
        },
{
    match has {
        Some(had) => had,
        None => {
            let id: u32 = *next;
            *next = id.wrapping_add(1);
            id
        },
    }
}

/// A side of a dma-buf, for the frame description: never negative.
pub fn dmabuf_side(side: i32) -> (s: u32)
    ensures
        s == if side < 0 {
            0int
        } else {
            side as int
        },
{
    if side < 0 {
        0
    } else {
        side as u32
    }
}

/// A single-pixel buffer's color, given its red, green, blue and alpha bytes,
/// as the one pixel of a premultiplied ARGB8888 buffer.
pub fn single_pixel(r: u8, g: u8, b: u8, a: u8) -> (argb: u32)
    ensures
        argb == a * 0x100_0000 + r * 0x1_0000 + g * 0x100 + b,
{
    a as u32 * 0x100_0000 + r as u32 * 0x1_0000 + g as u32 * 0x100 + b as u32
}

/// A layer is drawn for each surface whose buffer can be shown, in the order
/// the surfaces are drawn, and for no other.
pub proof fn layers_follow_the_stacking_order(
    nodes: Seq<Node>,
    order: Seq<usize>,
    x: int,
    y: int,
)
    requires
        forall|i: int| 0 <= i < order.len() ==> (#[trigger] order[i]) < nodes.len(),
    ensures
        layers_of(nodes, order, x, y).map_values(|l: LayerSpec| l.node) == order.filter(
            |n: usize| drawn(nodes, n as int),
        ),
    decreases order.len(),
{
    let p = |n: usize| drawn(nodes, n as int);
    let node = |l: LayerSpec| l.node;
    if order.len() == 0 {
        assert(order.filter(p) =~= Seq::<usize>::empty()) by {
            reveal(Seq::filter);
        }
        assert(layers_of(nodes, order, x, y).map_values(node) =~= Seq::<usize>::empty());
    } else {
        let d = order.drop_last();
        let last = order.last();
        assert forall|i: int| 0 <= i < d.len() implies (#[trigger] d[i]) < nodes.len() by {
            assert(d[i] == order[i]);
        }
        layers_follow_the_stacking_order(nodes, d, x, y);
        assert(order == d.push(last));
        d.lemma_filter_push(last, p);
        let before = layers_of(nodes, d, x, y);
        if drawn(nodes, last as int) {
            let l = layer_of(nodes, x, y, last as int);
            assert(before.push(l).map_values(node) =~= before.map_values(node).push(last));
        }
    }
}

/// Each layer shows the surface it stands for as its client asked: that
/// surface's buffer, layer id and content, at the size it is placed at, turned
/// by its transform, and called opaque exactly where one of the parts its
/// client calls opaque reaches over all of it.
pub proof fn each_layer_shows_its_surface(nodes: Seq<Node>, order: Seq<usize>, x: int, y: int)
    requires
        forall|i: int| 0 <= i < order.len() ==> (#[trigger] order[i]) < nodes.len(),
    ensures
        forall|k: int|
            0 <= k < layers_of(nodes, order, x, y).len() ==> {
                let l = #[trigger] layers_of(nodes, order, x, y)[k];
                let n = nodes[l.node as int];
                &&& l.node < nodes.len()
                &&& order.contains(l.node)
                &&& n.content == Content::Shown(l.layer.key)
                &&& l.layer.layer_id == n.layer_id
                &&& l.layer.generation == n.generation
                &&& n.placement matches Some(at) && l.w == at.w && l.h == at.h
                &&& !n.y_inverted ==> l.transform == n.transform.number()
                &&& n.y_inverted ==> l.transform == n.transform.inverted_number()
                &&& l.opaque <==> exists|i: int|
                    0 <= i < n.opaque@.len() && (#[trigger] n.opaque@[i]).x <= 0 && n.opaque@[i].y
                        <= 0 && n.opaque@[i].x + n.opaque@[i].w >= l.w && n.opaque@[i].y
                        + n.opaque@[i].h >= l.h
            },
    decreases order.len(),
{
    if order.len() > 0 {
        let d = order.drop_last();
        let last = order.last();
        assert forall|i: int| 0 <= i < d.len() implies (#[trigger] d[i]) < nodes.len() by {
            assert(d[i] == order[i]);
        }
        each_layer_shows_its_surface(nodes, d, x, y);
        let before = layers_of(nodes, d, x, y);
        let all = layers_of(nodes, order, x, y);
        assert(order[order.len() - 1] == last);
        assert forall|k: int| 0 <= k < all.len() implies order.contains(
            (#[trigger] all[k]).node,
        ) by {
            if k < before.len() {
                assert(all[k] == before[k]);
                let i = choose|i: int| 0 <= i < d.len() && d[i] == before[k].node;
                assert(order[i] == before[k].node);
            }
        }
        if drawn(nodes, last as int) {
            let l = layer_of(nodes, x, y, last as int);
            let n = nodes[last as int];
            assert(n.content == Content::Shown(n.content->Shown_0));
            assert(l.opaque <==> exists|i: int|
                0 <= i < n.opaque@.len() && (#[trigger] n.opaque@[i]).x <= 0 && n.opaque@[i].y <= 0
                    && n.opaque@[i].x + n.opaque@[i].w >= l.w && n.opaque@[i].y + n.opaque@[i].h
                    >= l.h) by {
                if l.opaque {
                    let i = choose|i: int|
                        0 <= i < n.opaque@.len() && (#[trigger] n.opaque@[i]).covers(l.w, l.h);
                    assert(n.opaque@[i].x <= 0);
                }
                if exists|i: int|
                    0 <= i < n.opaque@.len() && (#[trigger] n.opaque@[i]).x <= 0 && n.opaque@[i].y
                        <= 0 && n.opaque@[i].x + n.opaque@[i].w >= l.w && n.opaque@[i].y
                        + n.opaque@[i].h >= l.h {
                    let i = choose|i: int|
                        0 <= i < n.opaque@.len() && (#[trigger] n.opaque@[i]).x <= 0
                            && n.opaque@[i].y <= 0 && n.opaque@[i].x + n.opaque@[i].w >= l.w
                            && n.opaque@[i].y + n.opaque@[i].h >= l.h;
                    assert(n.opaque@[i].covers(l.w, l.h));
                }
            }
        }
    }
}

/// Each layer lies where its surface does: the root at `x`, `y` and its own
/// place, every other surface at its own place from where its parent lies.
pub proof fn positions_add_up_from_the_root(
    nodes: Seq<Node>,
    order: Seq<usize>,
    x: int,
    y: int,
    at_x: spec_fn(int) -> int,
    at_y: spec_fn(int) -> int,
    k: int,
)
    requires
        parents_first(nodes),
        nodes.len() <= 0x7fff_ffff,
        -0x1_0000_0000 <= x <= 0x1_0000_0000,
        -0x1_0000_0000 <= y <= 0x1_0000_0000,
        forall|i: int| 0 <= i < order.len() ==> (#[trigger] order[i]) < nodes.len(),
        forall|i: int|
            0 <= i < nodes.len() && (#[trigger] nodes[i]).placement is Some ==> {
                let own = nodes[i].placement->0;
                match nodes[i].parent {
                    None => at_x(i) == x + own.x && at_y(i) == y + own.y,
                    Some(p) => at_x(i) == at_x(p as int) + own.x && at_y(i) == at_y(p as int)
                        + own.y,
                }
            },
        0 <= k < layers_of(nodes, order, x, y).len(),
    ensures
        layers_of(nodes, order, x, y)[k].x == at_x(layers_of(nodes, order, x, y)[k].node as int),
        layers_of(nodes, order, x, y)[k].y == at_y(layers_of(nodes, order, x, y)[k].node as int),
    decreases order.len(),
{
    let d = order.drop_last();
    let last = order.last() as int;
    assert forall|i: int| 0 <= i < d.len() implies (#[trigger] d[i]) < nodes.len() by {
        assert(d[i] == order[i]);
    }
    if order.len() > 0 {
        let before = layers_of(nodes, d, x, y);
        if k < before.len() {
            positions_add_up_from_the_root(nodes, d, x, y, at_x, at_y, k);
        } else {
            assert(order[order.len() - 1] == last);
            places_add_up(nodes, x, y, at_x, at_y, last);
        }
    }
}

proof fn places_add_up(
    nodes: Seq<Node>,
    x: int,
    y: int,
    at_x: spec_fn(int) -> int,
    at_y: spec_fn(int) -> int,
    i: int,
)
    requires
        parents_first(nodes),
        0 <= i < nodes.len() <= 0x7fff_ffff,
        -0x1_0000_0000 <= x <= 0x1_0000_0000,
        -0x1_0000_0000 <= y <= 0x1_0000_0000,
        reached(nodes, i),
        nodes[i].placement is Some,
        forall|i: int|
            0 <= i < nodes.len() && (#[trigger] nodes[i]).placement is Some ==> {
                let own = nodes[i].placement->0;
                match nodes[i].parent {
                    None => at_x(i) == x + own.x && at_y(i) == y + own.y,
                    Some(p) => at_x(i) == at_x(p as int) + own.x && at_y(i) == at_y(p as int)
                        + own.y,
                }
            },
    ensures
        at_x(i) == base_x(nodes, x, i) + nodes[i].placement->0.x,
        at_y(i) == base_y(nodes, y, i) + nodes[i].placement->0.y,
        -(i + 3) * 0x8000_0000 <= at_x(i) <= (i + 3) * 0x8000_0000,
        -(i + 3) * 0x8000_0000 <= at_y(i) <= (i + 3) * 0x8000_0000,
    decreases i,
{
    if let Some(p) = nodes[i].parent {
        places_add_up(nodes, x, y, at_x, at_y, p as int);
    }
}

/// What is drawn, and what is counted as not to be shown: a surface that is
/// placed, as is everything above it in the tree. `placed` says that of each.
pub proof fn what_is_placed_is_drawn_or_counted(
    nodes: Seq<Node>,
    order: Seq<usize>,
    x: int,
    y: int,
    placed: spec_fn(int) -> bool,
)
    requires
        parents_first(nodes),
        forall|i: int| 0 <= i < order.len() ==> (#[trigger] order[i]) < nodes.len(),
        forall|i: int|
            0 <= i < nodes.len() ==> placed(i) == ((#[trigger] nodes[i]).placement is Some && (
            nodes[i].parent matches Some(p) ==> placed(p as int))),
    ensures
        layers_of(nodes, order, x, y).map_values(|l: LayerSpec| l.node) == order.filter(
            |n: usize| placed(n as int) && nodes[n as int].content is Shown,
        ),
        skipped_of(nodes, order) == order.filter(
            |n: usize| placed(n as int) && nodes[n as int].content is Unshowable,
        ).len(),
    decreases order.len(),
{
    let shown = |n: usize| placed(n as int) && nodes[n as int].content is Shown;
    let not = |n: usize| placed(n as int) && nodes[n as int].content is Unshowable;
    let node = |l: LayerSpec| l.node;
    if order.len() == 0 {
        assert(order.filter(shown) =~= Seq::<usize>::empty()) by {
            reveal(Seq::filter);
        }
        assert(order.filter(not) =~= Seq::<usize>::empty()) by {
            reveal(Seq::filter);
        }
        assert(layers_of(nodes, order, x, y).map_values(node) =~= Seq::<usize>::empty());
    } else {
        let d = order.drop_last();
        let last = order.last();
        assert forall|i: int| 0 <= i < d.len() implies (#[trigger] d[i]) < nodes.len() by {
            assert(d[i] == order[i]);
        }
        assert(order[order.len() - 1] == last);
        what_is_placed_is_drawn_or_counted(nodes, d, x, y, placed);
        placed_is_reached(nodes, placed, last as int);
        assert(order == d.push(last));
        d.lemma_filter_push(last, shown);
        d.lemma_filter_push(last, not);
        let before = layers_of(nodes, d, x, y);
        if drawn(nodes, last as int) {
            let l = layer_of(nodes, x, y, last as int);
            assert(before.push(l).map_values(node) =~= before.map_values(node).push(last));
        }
    }
}

proof fn placed_is_reached(nodes: Seq<Node>, placed: spec_fn(int) -> bool, i: int)
    requires
        parents_first(nodes),
        0 <= i < nodes.len(),
        forall|i: int|
            0 <= i < nodes.len() ==> placed(i) == ((#[trigger] nodes[i]).placement is Some && (
            nodes[i].parent matches Some(p) ==> placed(p as int))),
    ensures
        placed(i) == (reached(nodes, i) && nodes[i].placement is Some),
    decreases i,
{
    if let Some(p) = nodes[i].parent {
        placed_is_reached(nodes, placed, p as int);
    }
}

/// Where the pixel at `x`, `y` of a surface `w` wide and `h` high lies in a
/// buffer turned `turns` quarters, counter-clockwise.
pub open spec fn turned(turns: int, x: int, y: int, w: int, h: int) -> (int, int)
    decreases turns,
{
    if turns <= 0 {
        (x, y)
    } else {
        let before = turned(turns - 1, x, y, w, h);
        (before.1, side(turns - 1, w, h) - 1 - before.0)
    }
}

/// How wide a surface `w` wide and `h` high is, turned `turns` quarters.
pub open spec fn side(turns: int, w: int, h: int) -> int {
    if turns % 2 == 0 {
        w
    } else {
        h
    }
}

/// Where the pixel at `x`, `y` of a surface lies in its buffer, under the
/// transform with this number: mirrored, where that is 4 or more, then turned.
pub open spec fn stored_at(number: int, x: int, y: int, w: int, h: int) -> (int, int) {
    let mirrored = if number >= 4 {
        w - 1 - x
    } else {
        x
    };
    turned(number % 4, mirrored, y, w, h)
}

/// The orientation of a layer whose buffer is stored upside down puts each
/// pixel where it lies: in the row as far from the bottom as the buffer's
/// transform alone has it from the top.
pub proof fn upside_down_is_the_last_flip(t: Transform, x: int, y: int, w: int, h: int)
    ensures
        ({
            let upright = stored_at(t.number() as int, x, y, w, h);
            let height = side(t.number() % 4 + 1, w, h);
            stored_at(t.inverted_number(), x, y, w, h) == (upright.0, height - 1 - upright.1)
        }),
{
    reveal_with_fuel(turned, 4);
}

/// A buffer stored upside down twice over is stored the right way up.
pub proof fn turning_back_undoes_itself(t: Transform, u: Transform)
    requires
        u.number() == t.inverted_number(),
    ensures
        u.inverted_number() == t.number(),
{
}

/// A transform's number is wl_output's, and that of the same buffer stored
/// upside down is the one that shows it upright.
pub proof fn transforms_have_the_protocols_numbers()
    ensures
        Transform::Normal.number() == 0,
        Transform::Rotated90.number() == 1,
        Transform::Rotated180.number() == 2,
        Transform::Rotated270.number() == 3,
        Transform::Flipped.number() == 4,
        Transform::Flipped90.number() == 5,
        Transform::Flipped180.number() == 6,
        Transform::Flipped270.number() == 7,
        Transform::Normal.inverted_number() == 6,
        Transform::Rotated90.inverted_number() == 5,
        Transform::Rotated180.inverted_number() == 4,
        Transform::Rotated270.inverted_number() == 7,
        Transform::Flipped.inverted_number() == 2,
        Transform::Flipped90.inverted_number() == 1,
        Transform::Flipped180.inverted_number() == 0,
        Transform::Flipped270.inverted_number() == 3,
{
}

} // verus!
