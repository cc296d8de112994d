use ihs_wl_server::egl_display::dmabuf;
use ihs_wl_server::frame::{frame_planes, PlaneIn, PlaneOut};
use ihs_wl_server::gbm_buffer::{check, check_size, import};
use ihs_wl_server::gbm_buffer::{Create, Import, Params, Plane, Planes, Refused};
use ihs_wl_server::tree::Transform;
use ihs_wl_server::vendor_gbm::{
    layout_of, warn_compressed, Described, Layout, Unusable, DRM_FORMAT_MOD_QCOM_COMPRESSED,
};

/// drm_fourcc.h DRM_FORMAT_MOD_QCOM_COMPRESSED.
const QCOM_COMPRESSED: u64 = (0x05 << 56) | 1;
/// DRM_FORMAT_NV12.
const NV12: u32 = 0x3231_564e;
const XRGB8888: u32 = 0x3432_5258;
/// wl_output.transform flipped_180.
const FLIPPED_180: u32 = 6;

fn create(width: u32, height: u32, format: u32, flags: i32) -> Create {
    Create {
        width,
        height,
        format,
        flags,
    }
}

#[test]
fn not_offered_without_an_importer() {
    let mut p = Params::new();
    assert_eq!(
        p.create(false, create(64, 32, XRGB8888, 0)),
        Err(Refused::NoImporter)
    );
}

#[test]
fn a_gbm_buffer_is_shown_as_a_dma_buf() {
    let c = create(64, 32, XRGB8888, 0);
    let mut p = Params::new();
    assert_eq!(p.create(true, c), Ok(()));
    let planes = vec![Plane {
        offset: 0,
        stride: 64 * 4 + 64,
    }];
    let layout = Planes {
        modifier: QCOM_COMPRESSED,
        planes: planes.clone(),
    };
    assert_eq!(
        import(c, layout),
        Ok(Import {
            width: 64,
            height: 32,
            format: XRGB8888,
            modifier: QCOM_COMPRESSED,
            y_invert: false,
            planes
        })
    );
}

#[test]
fn a_two_plane_gbm_buffer_goes_with_both_planes() {
    let c = create(640, 368, NV12, 0);
    assert_eq!(check(c), Ok(()));
    let planes = vec![
        Plane {
            offset: 0,
            stride: 640,
        },
        Plane {
            offset: 640 * 384,
            stride: 640,
        },
    ];
    let layout = Planes {
        modifier: QCOM_COMPRESSED,
        planes: planes.clone(),
    };
    let got = import(c, layout).unwrap();
    assert_eq!((got.width, got.height, got.format), (640, 368, NV12));
    assert_eq!(got.planes, planes);
    // Planes of one dma-buf go as one fd.
    let on_one: Vec<PlaneIn> = planes
        .iter()
        .map(|p| PlaneIn {
            file: 3,
            offset: p.offset,
            stride: p.stride,
        })
        .collect();
    assert_eq!(
        frame_planes(&on_one),
        vec![
            PlaneOut {
                fd_of: 0,
                offset: 0,
                stride: 640
            },
            PlaneOut {
                fd_of: 0,
                offset: 640 * 384,
                stride: 640
            }
        ]
    );
}

#[test]
fn planes_of_their_own_dma_bufs_go_with_their_own_fds() {
    let plane = |file| PlaneIn {
        file,
        offset: 0,
        stride: 4,
    };
    let planes = vec![plane(3), plane(4), plane(3), plane(5), plane(4)];
    let fds: Vec<usize> = frame_planes(&planes).iter().map(|p| p.fd_of).collect();
    assert_eq!(fds, vec![0, 1, 0, 3], "four planes at most");
}

#[test]
fn a_y_inverted_gbm_buffer_is_flipped_back() {
    let c = create(64, 32, XRGB8888, 1);
    let layout = Planes {
        modifier: 0,
        planes: vec![Plane {
            offset: 0,
            stride: 320,
        }],
    };
    let got = import(c, layout).unwrap();
    assert!(got.y_invert);
    assert_eq!(Transform::Normal.layer_value(got.y_invert), FLIPPED_180);
    assert_eq!(Transform::Normal.layer_value(false), 0);
    // Upside down twice over is the right way up.
    assert_eq!(Transform::Flipped180.layer_value(true), 0);
}

#[test]
fn a_failed_import_or_a_reused_params_is_refused() {
    let none = Planes {
        modifier: 0,
        planes: Vec::new(),
    };
    assert_eq!(
        import(create(64, 32, XRGB8888, 0), none),
        Err(Refused::BadPlanes(0))
    );
    let five = Planes {
        modifier: 0,
        planes: vec![
            Plane {
                offset: 0,
                stride: 4
            };
            5
        ],
    };
    assert_eq!(
        import(create(64, 32, XRGB8888, 0), five),
        Err(Refused::BadPlanes(5))
    );
    // Not a DRM format.
    let mut p = Params::new();
    assert_eq!(
        p.create(true, create(64, 32, 0x1234_5678, 0)),
        Err(Refused::UnknownFormat(0x1234_5678))
    );
    assert_eq!(p.create(true, create(64, 32, XRGB8888, 0)), Err(Refused::Used));
}

#[test]
fn a_buffer_without_an_area_is_refused() {
    for (width, height) in [(0, 1), (1, 0), (0x8000_0000, 1), (1, u32::MAX)] {
        let c = create(width, height, XRGB8888, 0);
        assert_eq!(check(c), Err(Refused::BadSize { width, height }));
        assert_eq!(check_size(c), Err(Refused::BadSize { width, height }));
    }
    assert_eq!(check_size(create(1, 0x7fff_ffff, 0, 0)), Ok(()));
}

fn described() -> Described {
    Described {
        has_fd: true,
        rc: 0,
        compressed: true,
        width: 64,
        height: 32,
        format: XRGB8888,
        offset: 128,
        stride: 320,
    }
}

#[test]
fn a_vendor_buffer_says_what_it_is() {
    let got = layout_of(described()).unwrap();
    assert_eq!(
        got,
        Layout {
            width: 64,
            height: 32,
            format: XRGB8888,
            offset: 128,
            stride: 320,
            modifier: QCOM_COMPRESSED
        }
    );
    assert_eq!(QCOM_COMPRESSED, DRM_FORMAT_MOD_QCOM_COMPRESSED);
    let mut d = described();
    d.compressed = false;
    assert_eq!(layout_of(d).unwrap().modifier, 0);
}

#[test]
fn a_vendor_buffer_that_says_nothing_is_not_used() {
    let mut d = described();
    d.has_fd = false;
    assert_eq!(layout_of(d), Err(Unusable::NoFd));
    let mut d = described();
    d.rc = -3;
    assert_eq!(
        layout_of(d),
        Err(Unusable::BadLayout {
            rc: -3,
            stride: 320
        })
    );
    let mut d = described();
    d.stride = 0;
    assert_eq!(
        layout_of(d),
        Err(Unusable::BadLayout { rc: 0, stride: 0 })
    );
}

#[test]
fn compression_is_warned_of_once() {
    let compressed = layout_of(described()).unwrap();
    let mut d = described();
    d.compressed = false;
    let linear = layout_of(d).unwrap();
    let mut warned = false;
    assert!(!warn_compressed(&mut warned, linear));
    assert!(warn_compressed(&mut warned, compressed));
    assert!(!warn_compressed(&mut warned, compressed));
}

#[test]
fn an_egl_buffer_is_one_plane_of_a_known_format() {
    let layout = layout_of(described()).unwrap();
    assert_eq!(
        dmabuf(layout),
        Some(Import {
            width: 64,
            height: 32,
            format: XRGB8888,
            modifier: QCOM_COMPRESSED,
            y_invert: false,
            planes: vec![Plane {
                offset: 128,
                stride: 320
            }],
        })
    );
    assert_eq!(
        dmabuf(Layout {
            format: 0x1234_5678,
            ..layout
        }),
        None
    );
    let wide = Layout {
        width: u32::MAX,
        ..layout
    };
    assert_eq!(dmabuf(wide).unwrap().width, -1);
}
