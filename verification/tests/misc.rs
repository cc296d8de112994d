use ihs_wl_server::log::{ihs_level, IhsLevel, Level, Line, Sink};
use ihs_wl_server::nodes::{candidates, is_render_node, pick_heap};
use ihs_wl_server::text::{decimal, signed_decimal};

fn names(list: &[&str]) -> Vec<Vec<u8>> {
    list.iter().map(|n| n.as_bytes().to_vec()).collect()
}

#[test]
fn numbers_as_text() {
    assert_eq!(decimal(0), "0");
    assert_eq!(decimal(907), "907");
    assert_eq!(decimal(u64::MAX), u64::MAX.to_string());
    assert_eq!(signed_decimal(-12), "-12");
    assert_eq!(signed_decimal(i32::MIN), i32::MIN.to_string());
}

#[test]
fn levels_are_the_shells() {
    assert_eq!(ihs_level(Level::Error), IhsLevel::Error);
    assert_eq!(ihs_level(Level::Warn), IhsLevel::Warn);
    assert_eq!(ihs_level(Level::Info), IhsLevel::Info);
    assert_eq!(ihs_level(Level::Debug), IhsLevel::Debug);
    assert_eq!(ihs_level(Level::Trace), IhsLevel::Verbose);
}

#[test]
fn a_record_is_sent_without_the_line_end() {
    let mut line = Line::new(Level::Warn);
    assert_eq!(line.sink(true), Sink::Nowhere);
    assert_eq!(line.write(b"two "), 4);
    assert_eq!(line.write(b"words \r\n"), 8);
    assert_eq!(line.text(), b"two words");
    assert_eq!(line.sink(true), Sink::Shell);
    assert_eq!(line.sink(false), Sink::Stderr);
    assert_eq!(line.level, IhsLevel::Warn);
    let mut blank = Line::new(Level::Info);
    blank.write(b" \n\t\n");
    assert_eq!(blank.sink(true), Sink::Nowhere);
}

#[test]
fn render_nodes_in_order() {
    assert!(is_render_node(&b"renderD128".to_vec()));
    assert!(!is_render_node(&b"card0".to_vec()));
    assert!(!is_render_node(&b"render".to_vec()));
    assert_eq!(
        candidates(None, names(&["renderD129", "card0", "renderD128", "by-path"])),
        names(&["renderD128", "renderD129"])
    );
    assert_eq!(
        candidates(Some(b"/dev/dri/card1".to_vec()), names(&["renderD128"])),
        names(&["/dev/dri/card1"])
    );
}

#[test]
fn the_generic_contiguous_heap_is_preferred() {
    assert_eq!(pick_heap(&names(&["system"])), None);
    assert_eq!(pick_heap(&names(&["system", "zcma", "linux,cma"])), Some(2));
    assert_eq!(pick_heap(&names(&["reserved", "system", "acma"])), Some(2));
    assert_eq!(pick_heap(&names(&["reserved"])), Some(0));
}
