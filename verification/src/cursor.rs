//! The cursor the client under the pointer asks for, for the shell to show.
//!
//! The module draws nothing, so the cursor is the Flutter view's: each
//! pointer event returns the shape the client last asked for, and the widget
//! sets that as its mouse cursor. A client asks for a named shape, or for a
//! surface of its own, shown as the default here, or for none, which hides it.

use vstd::prelude::*;

verus! {

/// No shape asked for yet.
pub const NONE: i32 = 0;

/// The client hid the cursor; past every shape number.
pub const HIDDEN: i32 = 0x100;

/// The cursor shapes clients name.
#[derive(Clone, Copy, Debug, PartialEq, Eq, Structural)]
pub enum CursorIcon {
    Default,
    ContextMenu,
    Help,
    Pointer,
    Progress,
    Wait,
    Cell,
    Crosshair,
    Text,
    VerticalText,
    Alias,
    Copy,
    Move,
    NoDrop,
    NotAllowed,
    Grab,
    Grabbing,
    EResize,
    NResize,
    NeResize,
    NwResize,
    SResize,
    SeResize,
    SwResize,
    WResize,
    EwResize,
    NsResize,
    NeswResize,
    NwseResize,
    ColResize,
    RowResize,
    AllScroll,
    ZoomIn,
    ZoomOut,
    DndAsk,
    AllResize,
    /// A shape the protocol has no number for.
    Other,
}

/// What a client asks to be shown for the pointer.
#[derive(Clone, Copy, Debug, PartialEq, Eq, Structural)]
pub enum CursorImage {
    Hidden,
    Named(CursorIcon),
    /// A surface of the client's own: nothing draws it.
    Surface,
}

/// The wp_cursor_shape_device_v1.shape number of `icon`: the default arrow's
/// for one the protocol does not have.
pub open spec fn shape_number(icon: CursorIcon) -> i32 {
    match icon {
        CursorIcon::Default => 1,
        CursorIcon::ContextMenu => 2,
        CursorIcon::Help => 3,
        CursorIcon::Pointer => 4,
        CursorIcon::Progress => 5,
        CursorIcon::Wait => 6,
        CursorIcon::Cell => 7,
        CursorIcon::Crosshair => 8,
        CursorIcon::Text => 9,
        CursorIcon::VerticalText => 10,
        CursorIcon::Alias => 11,
        CursorIcon::Copy => 12,
        CursorIcon::Move => 13,
        CursorIcon::NoDrop => 14,
        CursorIcon::NotAllowed => 15,
        CursorIcon::Grab => 16,
        CursorIcon::Grabbing => 17,
        CursorIcon::EResize => 18,
        CursorIcon::NResize => 19,
        CursorIcon::NeResize => 20,
        CursorIcon::NwResize => 21,
        CursorIcon::SResize => 22,
        CursorIcon::SeResize => 23,
        CursorIcon::SwResize => 24,
        CursorIcon::WResize => 25,
        CursorIcon::EwResize => 26,
        CursorIcon::NsResize => 27,
        CursorIcon::NeswResize => 28,
        CursorIcon::NwseResize => 29,
        CursorIcon::ColResize => 30,
        CursorIcon::RowResize => 31,
        CursorIcon::AllScroll => 32,
        CursorIcon::ZoomIn => 33,
        CursorIcon::ZoomOut => 34,
        CursorIcon::DndAsk => 35,
        CursorIcon::AllResize => 36,
        CursorIcon::Other => 1,
    }
}

/// What the shell is told for `image`.
pub open spec fn number_for(image: CursorImage) -> i32 {
    match image {
        CursorImage::Hidden => HIDDEN,
        CursorImage::Named(icon) => shape_number(icon),
        CursorImage::Surface => shape_number(CursorIcon::Default),
    }
}

/// The cursor last asked for.
#[derive(Clone, Copy, Debug, PartialEq, Eq, Structural)]
pub struct Cursor {
    pub value: i32,
}

/// What a pointer event returns.
pub fn current(cursor: &Cursor) -> (value: i32)
    ensures
        value == cursor.value,
{
    cursor.value
}

/// A server starting: no client has asked for anything.
pub fn reset(cursor: &mut Cursor)
    ensures
        final(cursor).value == NONE,
{
    cursor.value = NONE;
}

/// The client under the pointer asked for `image`. The default is also set
/// when the pointer leaves a surface.
pub fn set(cursor: &mut Cursor, image: CursorImage)
    ensures
        final(cursor).value == number_for(image),
        image is Hidden ==> final(cursor).value == 0x100,
        image is Surface ==> final(cursor).value == 1,
{
    cursor.value = match image {
        CursorImage::Hidden => HIDDEN,
        CursorImage::Named(icon) => shape_of(icon),
        CursorImage::Surface => shape_of(CursorIcon::Default),
    };
}

/// The wp_cursor_shape_device_v1.shape for `icon`.
pub fn shape_of(icon: CursorIcon) -> (n: i32)
    ensures
        n == shape_number(icon),
{
    match icon {
        CursorIcon::Default => 1,
        CursorIcon::ContextMenu => 2,
        CursorIcon::Help => 3,
        CursorIcon::Pointer => 4,
        CursorIcon::Progress => 5,
        CursorIcon::Wait => 6,
        CursorIcon::Cell => 7,
        CursorIcon::Crosshair => 8,
        CursorIcon::Text => 9,
        CursorIcon::VerticalText => 10,
        CursorIcon::Alias => 11,
        CursorIcon::Copy => 12,
        CursorIcon::Move => 13,
        CursorIcon::NoDrop => 14,
        CursorIcon::NotAllowed => 15,
        CursorIcon::Grab => 16,
        CursorIcon::Grabbing => 17,
        CursorIcon::EResize => 18,
        CursorIcon::NResize => 19,
        CursorIcon::NeResize => 20,
        CursorIcon::NwResize => 21,
        CursorIcon::SResize => 22,
        CursorIcon::SeResize => 23,
        CursorIcon::SwResize => 24,
        CursorIcon::WResize => 25,
        CursorIcon::EwResize => 26,
        CursorIcon::NsResize => 27,
        CursorIcon::NeswResize => 28,
        CursorIcon::NwseResize => 29,
        CursorIcon::ColResize => 30,
        CursorIcon::RowResize => 31,
        CursorIcon::AllScroll => 32,
        CursorIcon::ZoomIn => 33,
        CursorIcon::ZoomOut => 34,
        CursorIcon::DndAsk => 35,
        CursorIcon::AllResize => 36,
        CursorIcon::Other => 1,
    }
}

/// A shape number names one icon, and is never taken for a hidden cursor, for
/// no cursor at all, or for an error.
pub proof fn shapes_are_told_apart(a: CursorIcon, b: CursorIcon)
    ensures
        shape_number(a) == shape_number(b) && a != CursorIcon::Other && b != CursorIcon::Other
            ==> a == b,
        NONE < shape_number(a) < HIDDEN,
{
}

/// The numbers are those of wp_cursor_shape_device_v1, in the order it lists
/// its shapes; a shape it does not list, and a surface of the client's own, is
/// shown as the arrow.
pub proof fn shapes_have_the_protocols_numbers()
    ensures
        number_for(CursorImage::Named(CursorIcon::Default)) == 1,
        number_for(CursorImage::Named(CursorIcon::ContextMenu)) == 2,
        number_for(CursorImage::Named(CursorIcon::Help)) == 3,
        number_for(CursorImage::Named(CursorIcon::Pointer)) == 4,
        number_for(CursorImage::Named(CursorIcon::Progress)) == 5,
        number_for(CursorImage::Named(CursorIcon::Wait)) == 6,
        number_for(CursorImage::Named(CursorIcon::Cell)) == 7,
        number_for(CursorImage::Named(CursorIcon::Crosshair)) == 8,
        number_for(CursorImage::Named(CursorIcon::Text)) == 9,
        number_for(CursorImage::Named(CursorIcon::VerticalText)) == 10,
        number_for(CursorImage::Named(CursorIcon::Alias)) == 11,
        number_for(CursorImage::Named(CursorIcon::Copy)) == 12,
        number_for(CursorImage::Named(CursorIcon::Move)) == 13,
        number_for(CursorImage::Named(CursorIcon::NoDrop)) == 14,
        number_for(CursorImage::Named(CursorIcon::NotAllowed)) == 15,
        number_for(CursorImage::Named(CursorIcon::Grab)) == 16,
        number_for(CursorImage::Named(CursorIcon::Grabbing)) == 17,
        number_for(CursorImage::Named(CursorIcon::EResize)) == 18,
        number_for(CursorImage::Named(CursorIcon::NResize)) == 19,
        number_for(CursorImage::Named(CursorIcon::NeResize)) == 20,
        number_for(CursorImage::Named(CursorIcon::NwResize)) == 21,
        number_for(CursorImage::Named(CursorIcon::SResize)) == 22,
        number_for(CursorImage::Named(CursorIcon::SeResize)) == 23,
        number_for(CursorImage::Named(CursorIcon::SwResize)) == 24,
        number_for(CursorImage::Named(CursorIcon::WResize)) == 25,
        number_for(CursorImage::Named(CursorIcon::EwResize)) == 26,
        number_for(CursorImage::Named(CursorIcon::NsResize)) == 27,
        number_for(CursorImage::Named(CursorIcon::NeswResize)) == 28,
        number_for(CursorImage::Named(CursorIcon::NwseResize)) == 29,
        number_for(CursorImage::Named(CursorIcon::ColResize)) == 30,
        number_for(CursorImage::Named(CursorIcon::RowResize)) == 31,
        number_for(CursorImage::Named(CursorIcon::AllScroll)) == 32,
        number_for(CursorImage::Named(CursorIcon::ZoomIn)) == 33,
        number_for(CursorImage::Named(CursorIcon::ZoomOut)) == 34,
        number_for(CursorImage::Named(CursorIcon::DndAsk)) == 35,
        number_for(CursorImage::Named(CursorIcon::AllResize)) == 36,
        number_for(CursorImage::Named(CursorIcon::Other)) == 1,
        number_for(CursorImage::Surface) == 1,
        number_for(CursorImage::Hidden) == 0x100,
        NONE == 0,
{
}

} // verus!
