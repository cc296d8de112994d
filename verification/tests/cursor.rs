use ihs_wl_server::cursor::{current, reset, shape_of, Cursor, CursorIcon, CursorImage};
use ihs_wl_server::cursor::{HIDDEN, NONE};

#[test]
fn shapes_keep_their_protocol_numbers() {
    assert_eq!(shape_of(CursorIcon::Default), 1);
    assert_eq!(shape_of(CursorIcon::Pointer), 4);
    assert_eq!(shape_of(CursorIcon::Text), 9);
    assert_eq!(shape_of(CursorIcon::AllResize), 36);
}

#[test]
fn pointer_returns_the_cursor_the_client_asks_for() {
    let mut cursor = Cursor { value: NONE };
    assert_eq!(current(&cursor), 0, "none asked");
    ihs_wl_server::cursor::set(&mut cursor, CursorImage::Named(CursorIcon::Text));
    assert_eq!(current(&cursor), 9);
    ihs_wl_server::cursor::set(&mut cursor, CursorImage::Named(CursorIcon::NwseResize));
    assert_eq!(current(&cursor), shape_of(CursorIcon::NwseResize));
    ihs_wl_server::cursor::set(&mut cursor, CursorImage::Hidden);
    assert_eq!(current(&cursor), HIDDEN);
    // A cursor surface of its own: the default.
    ihs_wl_server::cursor::set(&mut cursor, CursorImage::Surface);
    assert_eq!(current(&cursor), 1);
    // An icon without a shape of its own is shown as the default too.
    ihs_wl_server::cursor::set(&mut cursor, CursorImage::Named(CursorIcon::Other));
    assert_eq!(current(&cursor), 1);
    ihs_wl_server::cursor::set(&mut cursor, CursorImage::Named(CursorIcon::Pointer));
    assert_eq!(current(&cursor), 4);
    reset(&mut cursor);
    assert_eq!(current(&cursor), NONE);
}
