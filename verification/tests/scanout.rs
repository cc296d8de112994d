use ihs_wl_server::action::Action;
use ihs_wl_server::caps::FormatModifier;
use ihs_wl_server::scanout::{layer_surface, scanout_feedback, tranche, Hint, HintStep, Scanout, Tranche};

const AR24: u32 = u32::from_le_bytes(*b"AR24");
const XR24: u32 = u32::from_le_bytes(*b"XR24");
const AB24: u32 = u32::from_le_bytes(*b"AB24");
const XB24: u32 = u32::from_le_bytes(*b"XB24");
const NV12: u32 = u32::from_le_bytes(*b"NV12");
const CARD: u64 = 226 << 8;
const RENDER: u64 = (226 << 8) | 128;

fn formats(list: &[u32]) -> Vec<FormatModifier> {
    list.iter()
        .map(|f| FormatModifier {
            fourcc: *f,
            modifier: 0,
        })
        .collect()
}

/// What the mock shell imports: LINEAR 8888.
fn imported() -> Vec<FormatModifier> {
    formats(&[AR24, XR24, AB24, XB24])
}

fn hint(layer_id: u32, list: &[u32]) -> Hint {
    Hint {
        layer_id,
        dev: CARD,
        formats: formats(list),
    }
}

/// The scanout tranche of these formats ahead of the main one.
fn feedback(list: &[u32]) -> Vec<Tranche> {
    vec![
        Tranche {
            dev: CARD,
            scanout: true,
            formats: formats(list),
        },
        Tranche {
            dev: RENDER,
            scanout: false,
            formats: imported(),
        },
    ]
}

/// Follow a hint through, as the server does; what the surface is given.
fn follow(s: &mut Scanout, scene: &Vec<(u64, Option<u32>)>, view: i32, h: Hint) -> Vec<Action> {
    let mut out = Vec::new();
    let surface = layer_surface(scene, h.layer_id);
    match s.scanout_hint(&imported(), Some(RENDER), surface, &h) {
        HintStep::Nothing => {}
        HintStep::Reuse { surface, any } => s.give(surface, view, any, &mut out),
        HintStep::Build { surface, .. } => {
            let any = s.built(&imported(), h, true);
            s.give(surface, view, any, &mut out);
        }
        HintStep::Unfit { surface } => {
            let any = s.built(&imported(), h, false);
            s.give(surface, view, any, &mut out);
        }
    }
    out
}

#[test]
fn a_hint_adds_a_scanout_tranche_while_the_view_shows_it() {
    let scene = vec![(5u64, Some(9u32))];
    let mut s = Scanout::new();
    assert!(!s.hinted_feedback(5));

    // Only what the shell also imports goes in the tranche.
    assert_eq!(
        tranche(&imported(), &formats(&[XR24, NV12, AR24])),
        formats(&[XR24, AR24])
    );
    assert_eq!(
        scanout_feedback(RENDER, CARD, &imported(), &formats(&[XR24, NV12, AR24])),
        Some(feedback(&[XR24, AR24]))
    );
    assert_eq!(
        scanout_feedback(RENDER, CARD, &imported(), &formats(&[NV12])),
        None
    );
    let out = follow(&mut s, &scene, 1, hint(9, &[XR24, NV12, AR24]));
    assert_eq!(out, vec![Action::ScanoutFeedback(5)]);
    assert!(s.hinted_feedback(5));

    // The same hint again: the same feedback, so nothing new is sent.
    assert_eq!(
        s.scanout_hint(&imported(), Some(RENDER), Some(5), &hint(9, &[XR24, NV12, AR24])),
        HintStep::Reuse {
            surface: 5,
            any: true
        }
    );

    // Withdrawn: the format fits, thanks to the tranche, which stays.
    assert!(follow(&mut s, &scene, 1, hint(9, &[])).is_empty());
    assert!(s.hinted_feedback(5));
    // A layer that is not in the view: ignored.
    assert!(follow(&mut s, &scene, 1, hint(1009, &[AR24])).is_empty());

    // Nothing the shell imports: no tranche.
    let out = follow(&mut s, &scene, 1, hint(9, &[NV12]));
    assert_eq!(out, vec![Action::DefaultFeedback(5)]);
    assert!(!s.hinted_feedback(5));

    // Off its view, the surface goes back to the default feedback.
    follow(&mut s, &scene, 1, hint(9, &[AR24]));
    let mut out = Vec::new();
    s.forget_scanout(1, &mut out);
    assert_eq!(out, vec![Action::DefaultFeedback(5)]);
    assert!(!s.hinted_feedback(5));
}

#[test]
fn feedback_asked_for_after_the_hint_has_the_tranche() {
    let scene = vec![(4u64, None), (5, Some(9u32))];
    let mut s = Scanout::new();
    follow(&mut s, &scene, 1, hint(9, &[AR24]));
    assert!(s.hinted_feedback(5));
    assert!(!s.hinted_feedback(4));
    // Another view's surfaces keep theirs.
    let mut out = Vec::new();
    s.forget_scanout(2, &mut out);
    assert!(out.is_empty());
    assert!(s.hinted_feedback(5));
    s.forget_surface(5);
    assert!(!s.hinted_feedback(5));
}

#[test]
fn a_hint_without_default_feedback_is_ignored() {
    let s = Scanout::new();
    assert_eq!(
        s.scanout_hint(&imported(), None, Some(5), &hint(9, &[AR24])),
        HintStep::Nothing
    );
    assert_eq!(
        s.scanout_hint(&imported(), Some(RENDER), Some(5), &hint(9, &[AR24])),
        HintStep::Build {
            surface: 5,
            tranches: feedback(&[AR24])
        }
    );
}

#[test]
fn a_tranche_stays_while_its_view_shows_the_surface() {
    let scene = vec![(5u64, Some(9u32)), (6, Some(10))];
    let mut s = Scanout::new();
    follow(&mut s, &scene, 1, hint(9, &[AR24]));
    follow(&mut s, &scene, 2, hint(10, &[AR24]));
    assert!(s.hinted_feedback(5) && s.hinted_feedback(6));
    // Another surface loses its own; another view shows nothing more.
    follow(&mut s, &scene, 2, hint(10, &[NV12]));
    assert!(s.hinted_feedback(5) && !s.hinted_feedback(6));
    let mut out = Vec::new();
    s.forget_scanout(2, &mut out);
    assert!(out.is_empty() && s.hinted_feedback(5));
    s.forget_scanout(1, &mut out);
    assert_eq!(out, vec![Action::DefaultFeedback(5)]);
    assert!(!s.hinted_feedback(5));
}

#[test]
fn there_is_no_feedback_for_formats_the_shell_does_not_import() {
    let mut s = Scanout::new();
    let nv12 = hint(9, &[NV12]);
    assert_eq!(
        s.scanout_hint(&imported(), Some(RENDER), Some(5), &nv12),
        HintStep::Unfit { surface: 5 }
    );
    // Nothing was there to be built.
    assert!(!s.built(&imported(), nv12.clone(), true));
    assert_eq!(
        s.scanout_hint(&imported(), Some(RENDER), Some(5), &nv12),
        HintStep::Reuse {
            surface: 5,
            any: false
        }
    );
    // Nor is there any when building it failed.
    assert!(!s.built(&imported(), hint(9, &[AR24]), false));
    assert!(s.built(&imported(), hint(9, &[AR24]), true));
}
