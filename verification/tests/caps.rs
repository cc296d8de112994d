use ihs_wl_server::caps::{
    fallback, fourcc, import_formats, lists_format, Answer, Caps, FormatModifier, ShellEgl,
};
use ihs_wl_server::dmabuf::{formats, global_version, select};

fn f(code: u32, modifier: u64) -> FormatModifier {
    FormatModifier {
        fourcc: code,
        modifier,
    }
}

fn answer(render_device: u64) -> Answer {
    Answer {
        ok: true,
        formats: vec![f(fourcc(*b"AR24"), 0), f(fourcc(*b"XR24"), 7)],
        render_device,
        samples_images: false,
        egl: ShellEgl {
            display: 3,
            config: 4,
        },
    }
}

#[test]
fn the_render_device_is_the_main_device() {
    // 226:128, the first render node.
    let dev = (226 << 8) | 128;
    let caps = Caps::from_answer(answer(dev));
    assert_eq!(caps.render_device, Some(dev));
    assert!(global_version(&caps, true) >= 4);
}

#[test]
fn no_render_device_offers_v3() {
    let caps = Caps::from_answer(answer(0));
    assert_eq!(caps.render_device, None);
    assert_eq!(global_version(&caps, true), 3);
    // Nor where the feedback could not be built.
    let caps = Caps::from_answer(answer(1));
    assert_eq!(global_version(&caps, false), 3);
}

#[test]
fn format_codes_are_little_endian() {
    assert_eq!(fourcc(*b"XR24"), 0x3432_5258);
    assert_eq!(fourcc(*b"AR24"), 0x3432_5241);
}

#[test]
fn what_the_shell_lists_is_accepted() {
    let caps = Caps::from_answer(answer(0));
    assert!(caps.accepts(fourcc(*b"AR24"), 0));
    assert!(caps.accepts(fourcc(*b"XR24"), 7));
    assert!(!caps.accepts(fourcc(*b"XR24"), 0));
    assert_eq!(caps.egl_images, None);
    let mut a = answer(0);
    a.samples_images = true;
    assert_eq!(
        Caps::from_answer(a).egl_images,
        Some(ShellEgl {
            display: 3,
            config: 4
        })
    );
}

#[test]
fn a_shell_that_does_not_answer_is_offered_the_common_formats() {
    let mut a = answer(5);
    a.ok = false;
    let caps = Caps::from_answer(a);
    assert_eq!(caps.formats, fallback());
    assert_eq!(
        fallback(),
        vec![
            f(fourcc(*b"AR24"), 0),
            f(fourcc(*b"XR24"), 0),
            f(fourcc(*b"AB24"), 0),
            f(fourcc(*b"XB24"), 0)
        ]
    );
    assert_eq!(import_formats(true, &Vec::new()), fallback());
}

#[test]
fn formats_that_are_none_are_not_offered() {
    // XR24 is a DRM format; 0x12345678 is not.
    let offered = vec![f(fourcc(*b"XR24"), 1), f(0x1234_5678, 0), f(fourcc(*b"NV12"), 2)];
    assert_eq!(
        formats(&offered),
        vec![f(fourcc(*b"XR24"), 1), f(fourcc(*b"NV12"), 2)]
    );
    assert!(formats(&vec![f(0x1234_5678, 0)]).is_empty());
}

#[test]
fn a_selection_keeps_the_order() {
    let offered = vec![f(1, 1), f(2, 2), f(3, 3)];
    assert_eq!(
        select(&offered, &vec![true, false, true]),
        vec![f(1, 1), f(3, 3)]
    );
    assert!(lists_format(&offered, f(2, 2)));
    assert!(!lists_format(&offered, f(2, 1)));
}
