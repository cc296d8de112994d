//! Popups: menus, tooltips and the like, shown in their toplevel's view.
//!
//! A view shows a scene: its toplevel's surface tree, then each popup's tree
//! above it, parents below their children. Popups are placed inside the view
//! (they cannot spill out of it) and go away with a press outside the client,
//! when the view loses keyboard focus, or when it leaves the scene.

use vstd::prelude::*;

use crate::tree::Rect;

verus! {

/// A surface tree of a view's scene, and where its root surface's origin lands
/// in the view, in logical pixels.
#[derive(Clone, Copy, Debug, PartialEq, Eq, Structural)]
pub struct Tree {
    pub surface: u64,
    pub x: i64,
    pub y: i64,
}

/// A popup: where it is placed on its toplevel's window geometry, and where
/// its own window geometry starts within it.
#[derive(Clone, Copy, Debug, PartialEq, Eq)]
pub struct Popup {
    pub surface: u64,
    pub at: (i32, i32),
    pub geometry: (i32, i32),
}

impl Popup {
    /// Its tree in the view.
    pub open spec fn tree(self) -> Tree {
        Tree {
            surface: self.surface,
            x: (self.at.0 - self.geometry.0) as i64,
            y: (self.at.1 - self.geometry.1) as i64,
        }
    }
}

/// The trees of `popups`, the last first: children come before their parents
/// among them, and are shown above.
pub open spec fn popup_trees(popups: Seq<Popup>) -> Seq<Tree> {
    popups.reverse().map_values(|p: Popup| p.tree())
}

/// The scene of a view, bottom to top. `root` is the toplevel it shows, whose
/// window geometry, with its origin at `origin` within it, starts at the
/// view's; `popups` lists its popups, children before their parents.
pub fn view_trees(root: u64, origin: (i32, i32), popups: &Vec<Popup>) -> (trees: Vec<Tree>)
    ensures
        trees@ == seq![
            Tree { surface: root, x: (-(origin.0)) as i64, y: (-(origin.1)) as i64 },
        ] + popup_trees(popups@),
        forall|i: int|
            0 <= i < trees@.len() ==> -0x1_0000_0000 <= (#[trigger] trees@[i]).x <= 0x1_0000_0000
                && -0x1_0000_0000 <= trees@[i].y <= 0x1_0000_0000,
        trees@.len() == popups@.len() + 1,
        forall|i: int|
            0 <= i < popups@.len() ==> {
                let tree = trees@[popups@.len() - i];
                &&& tree.surface == (#[trigger] popups@[i]).surface
                &&& tree.x == popups@[i].at.0 - popups@[i].geometry.0
                &&& tree.y == popups@[i].at.1 - popups@[i].geometry.1
            },
{
    let mut trees: Vec<Tree> = Vec::new();
    let first = Tree { surface: root, x: -(origin.0 as i64), y: -(origin.1 as i64) };
    trees.push(first);
    let ghost all = popup_trees(popups@);
    let mut i: usize = popups.len();
    assert(trees@ =~= seq![first] + all.take(0));
    while i > 0
        invariant
            i <= popups.len(),
            all == popup_trees(popups@),
            trees@ == seq![first] + all.take(popups.len() - i),
        decreases i,
    {
        i -= 1;
        let p = popups[i];
        let tree = Tree {
            surface: p.surface,
            x: p.at.0 as i64 - p.geometry.0 as i64,
            y: p.at.1 as i64 - p.geometry.1 as i64,
        };
        proof {
            let k = popups.len() - i - 1;
            assert(popups@.reverse()[k] == popups@[i as int]);
            assert(all[k] == tree);
            assert(all.take(k + 1) =~= all.take(k).push(tree));
        }
        trees.push(tree);
    }
    assert(all.take(popups.len() as int) =~= all);
    trees
}

/// Where a popup is to be kept: its view, in the popup's parent's window
/// geometry space, as its positioner is. `size` is the view's logical size,
/// once it is laid out and shows the popup's toplevel; `coords` is where the
/// popup's parent lies on that.
pub fn popup_target(size: Option<(i32, i32)>, coords: (i32, i32)) -> (target: Option<Rect>)
    requires
        coords.0 > i32::MIN,
        coords.1 > i32::MIN,
    ensures
        match size {
            Some((w, h)) => target matches Some(r) && r.x == -(coords.0) && r.y == -(coords.1)
                && r.w == w && r.h == h,
            None => target is None,
        },
{
    match size {
        Some((w, h)) => Some(Rect { x: -coords.0, y: -coords.1, w, h }),
        None => None,
    }
}

/// Whether a device is grabbed, and by what.
#[derive(Clone, Copy, Debug, PartialEq, Eq, Structural)]
pub struct Grab {
    pub grabbed: bool,
    /// By the event whose serial asks for the popup's grab.
    pub by_this: bool,
    /// By the grab the popup's would follow.
    pub by_previous: bool,
}

impl Grab {
    /// Another grab holds.
    pub open spec fn elsewhere(self) -> bool {
        self.grabbed && !(self.by_this || self.by_previous)
    }
}

/// Whether a popup gets the explicit grab its client asked for: only while the
/// press that asked for it holds. A seat may have no keyboard.
pub fn grab_popup(pointer: Grab, keyboard: Option<Grab>) -> (granted: bool)
    ensures
        granted == !(pointer.elsewhere() || (keyboard matches Some(k) && k.elsewhere())),
        granted ==> !pointer.grabbed || pointer.by_this || pointer.by_previous,
        granted && keyboard is Some ==> !keyboard->0.grabbed || keyboard->0.by_this
            || keyboard->0.by_previous,
        !granted ==> (pointer.grabbed && !pointer.by_this && !pointer.by_previous) || (keyboard
            is Some && keyboard->0.grabbed && !keyboard->0.by_this && !keyboard->0.by_previous),
{
    if pointer.grabbed && !(pointer.by_this || pointer.by_previous) {
        return false;
    }
    match keyboard {
        Some(k) => !(k.grabbed && !(k.by_this || k.by_previous)),
        None => true,
    }
}

/// The toplevel a surface belongs to: the root of its tree or, where that is a
/// popup of a toplevel, that toplevel.
pub fn toplevel_of<S>(root: S, popup_toplevel: Option<S>) -> (toplevel: S)
    ensures
        toplevel == match popup_toplevel {
            Some(t) => t,
            None => root,
        },
{
    match popup_toplevel {
        Some(t) => t,
        None => root,
    }
}

/// A view's scene starts with its toplevel and lists every popup once, each
/// above what was listed after it.
pub proof fn popups_are_above_their_parents(popups: Seq<Popup>, parent: int, child: int)
    requires
        0 <= child < parent < popups.len(),
    ensures
        popup_trees(popups).len() == popups.len(),
        popup_trees(popups)[popups.len() - 1 - parent] == popups[parent].tree(),
        popup_trees(popups)[popups.len() - 1 - child] == popups[child].tree(),
        popups.len() - 1 - parent < popups.len() - 1 - child,
{
}

/// A popup's own window geometry lands where it was placed on its toplevel's:
/// its tree starts as far above and left of that as its geometry starts within
/// it, and shows the popup's surface.
pub proof fn a_popups_geometry_lands_where_it_was_placed(popups: Seq<Popup>, i: int)
    requires
        0 <= i < popups.len(),
    ensures
        popup_trees(popups)[popups.len() - 1 - i].surface == popups[i].surface,
        popup_trees(popups)[popups.len() - 1 - i].x + popups[i].geometry.0 == popups[i].at.0,
        popup_trees(popups)[popups.len() - 1 - i].y + popups[i].geometry.1 == popups[i].at.1,
{
    assert(popups.reverse()[popups.len() - 1 - i] == popups[i]);
}

/// A grab holds elsewhere where the device is grabbed, neither by the press
/// that asks nor by the grab before it.
pub proof fn when_another_grab_holds(g: Grab)
    ensures
        g.elsewhere() <==> g.grabbed && !g.by_this && !g.by_previous,
{
}

} // verus!
