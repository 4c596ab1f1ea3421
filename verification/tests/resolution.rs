//! Resolution modes and the sizes they resolve to.

use rewynd::resolution::{
    fit_width, sanitize_dims, scale_to_height, ResolutionMode, FALLBACK_DIMS, MAX_AUTO_PIXELS, MAX_DIM, MIN_DIM,
};


/// Common panel shapes, so a regression on any of them is named rather than numeric.
const ULTRAWIDE: (u32, u32) = (3440, 1440);
const SUPER_ULTRAWIDE: (u32, u32) = (5120, 1440);
const SIXTEEN_TEN: (u32, u32) = (1920, 1200);
const FOUR_THREE: (u32, u32) = (1600, 1200);
const UHD: (u32, u32) = (3840, 2160);
const EIGHT_K: (u32, u32) = (7680, 4320);
/// A 3:2 laptop panel: taller than 4K but well under its pixel count.
const RETINA_3_2: (u32, u32) = (3440, 2236);

#[test]
fn stored_zeroes_mean_match_display() {
    assert_eq!(
        ResolutionMode::from_stored(true, 0, 0),
        ResolutionMode::MatchDisplay
    );
    assert_eq!(
        ResolutionMode::from_stored(true, 1920, 0),
        ResolutionMode::MatchDisplay,
        "a stored width without a height is still auto"
    );
}

#[test]
fn stored_height_with_match_display_is_a_quality_preset() {
    assert_eq!(
        ResolutionMode::from_stored(true, 1920, 1080),
        ResolutionMode::Height(1080),
        "the stored width is advisory while match_display is on"
    );
}

#[test]
fn clearing_match_display_pins_the_stored_pair() {
    assert_eq!(
        ResolutionMode::from_stored(false, 2560, 1080),
        ResolutionMode::Fixed {
            width: 2560,
            height: 1080
        }
    );
    assert_eq!(
        ResolutionMode::from_stored(false, 0, 1080),
        ResolutionMode::Height(1080),
        "a pin needs both dimensions; a zero falls back to the auto reading"
    );
}

#[test]
fn match_display_records_the_panel_natively() {
    for panel in [
        ULTRAWIDE,
        SUPER_ULTRAWIDE,
        SIXTEEN_TEN,
        FOUR_THREE,
        UHD,
        RETINA_3_2,
    ] {
        assert_eq!(
            ResolutionMode::MatchDisplay.resolve(Some(panel)),
            panel,
            "native capture of {panel:?}"
        );
    }
}

#[test]
fn match_display_budgets_by_area_not_by_height() {
    // The cap is a pixel count, so a panel taller than 4K but smaller than it stays native
    // rather than losing 3 % of its height for nothing.
    let (w, h) = RETINA_3_2;
    assert!(h > 2160, "the fixture must actually be taller than 4K");
    assert!(u64::from(w) * u64::from(h) < MAX_AUTO_PIXELS);
    assert_eq!(
        ResolutionMode::MatchDisplay.resolve(Some(RETINA_3_2)),
        RETINA_3_2
    );
}

#[test]
fn match_display_caps_at_4k() {
    assert_eq!(
        ResolutionMode::MatchDisplay.resolve(Some(EIGHT_K)),
        (3840, 2160),
        "an 8K panel scales down to 4K, keeping 16:9"
    );
    // Whatever the shape, the result must fit the budget and keep the source's aspect.
    for panel in [EIGHT_K, (10_000, 4000), (4000, 10_000)] {
        let (w, h) = ResolutionMode::MatchDisplay.resolve(Some(panel));
        assert!(
            u64::from(w) * u64::from(h) <= MAX_AUTO_PIXELS,
            "{panel:?} resolved to {w}x{h}, over the budget"
        );
        let (sw, sh) = (f64::from(panel.0), f64::from(panel.1));
        let ratio = (f64::from(w) / f64::from(h)) / (sw / sh);
        assert!(
            (ratio - 1.0).abs() < 0.01,
            "{panel:?} → {w}x{h} changed shape"
        );
    }
}

#[test]
fn a_quality_height_takes_its_width_from_the_display() {
    let cases = [
        (ULTRAWIDE, 1080, (2580, 1080)),
        (SUPER_ULTRAWIDE, 1080, (3840, 1080)),
        (SIXTEEN_TEN, 1080, (1728, 1080)),
        (FOUR_THREE, 1080, (1440, 1080)),
        (UHD, 1440, (2560, 1440)),
        (UHD, 720, (1280, 720)),
    ];
    for (panel, height, expected) in cases {
        assert_eq!(
            ResolutionMode::Height(height).resolve(Some(panel)),
            expected,
            "{height}p on {panel:?}"
        );
    }
}

#[test]
fn a_quality_height_never_upscales() {
    assert_eq!(
        ResolutionMode::Height(1440).resolve(Some((1920, 1080))),
        (1920, 1080),
        "1440p on a 1080p panel stays at 1080 lines"
    );
}

#[test]
fn a_pinned_size_is_honoured_verbatim() {
    assert_eq!(
        ResolutionMode::Fixed {
            width: 1920,
            height: 1080
        }
        .resolve(Some(ULTRAWIDE)),
        (1920, 1080),
        "the record path letterboxes the mismatch rather than changing the size"
    );
}

#[test]
fn a_pinned_size_is_still_clamped_to_encodable_values() {
    assert_eq!(
        ResolutionMode::Fixed {
            width: 1921,
            height: 4
        }
        .resolve(None),
        (1920, 16),
        "odd width rounds down to even, a tiny height clamps up"
    );
    assert_eq!(
        ResolutionMode::Fixed {
            width: 99_999,
            height: 99_999
        }
        .resolve(None),
        (MAX_DIM, MAX_DIM)
    );
}

#[test]
fn an_undetected_display_falls_back_to_the_reference_target() {
    assert_eq!(ResolutionMode::MatchDisplay.resolve(None), FALLBACK_DIMS);
    assert_eq!(ResolutionMode::Height(1080).resolve(None), (1920, 1080));
    assert_eq!(ResolutionMode::Height(720).resolve(None), (1280, 720));
    assert_eq!(ResolutionMode::Height(1440).resolve(None), (1920, 1080));
}

#[test]
fn odd_source_dimensions_resolve_to_even_ones() {
    assert_eq!(
        ResolutionMode::MatchDisplay.resolve(Some((1367, 769))),
        (1366, 768)
    );
}

#[test]
fn a_portrait_display_keeps_its_aspect() {
    assert_eq!(
        ResolutionMode::Height(1920).resolve(Some((1080, 1920))),
        (1080, 1920)
    );
}

#[test]
fn fit_width_handles_a_degenerate_source() {
    assert_eq!(fit_width(0, 0, 1080), 1920, "no source → 16:9");
    assert_eq!(fit_width(3440, 0, 1080), 1920);
}

#[test]
fn mode_height_reports_the_target_lines() {
    assert_eq!(ResolutionMode::MatchDisplay.height(), None);
    assert_eq!(ResolutionMode::Height(1440).height(), Some(1440));
    assert_eq!(
        ResolutionMode::Fixed {
            width: 2560,
            height: 1080
        }
        .height(),
        Some(1080)
    );
}

#[test]
fn sanitizing_twice_changes_nothing() {
    for dims in [(1921, 4), (0, 0), (99_999, 17), (1366, 768)] {
        let once = sanitize_dims(dims.0, dims.1);
        assert_eq!(sanitize_dims(once.0, once.1), once);
        assert!(once.0 >= MIN_DIM && once.1 >= MIN_DIM);
        assert!(once.0 % 2 == 0 && once.1 % 2 == 0);
    }
}

#[test]
fn scaling_to_a_height_keeps_the_shape() {
    assert_eq!(scale_to_height(3440, 1440, 1080), (2580, 1080));
    assert_eq!(scale_to_height(1600, 1200, 720), (960, 720));
}

#[test]
fn rounding_the_width_up_stays_within_the_budget() {
    // To the nearest pixel these would be 2956 and 3844 wide, a few pixels over the budget.
    assert_eq!(ResolutionMode::MatchDisplay.resolve(Some((3000, 2848))), (2954, 2806));
    assert_eq!(ResolutionMode::MatchDisplay.resolve(Some((7687, 4316))), (3842, 2158));
    for panel in [(3000, 2848), (7687, 4316), (1, u32::MAX), (u32::MAX, u32::MAX), (u32::MAX, 3)] {
        let (w, h) = ResolutionMode::MatchDisplay.resolve(Some(panel));
        assert!(u64::from(w) * u64::from(h) <= MAX_AUTO_PIXELS, "{panel:?} resolved to {w}x{h}");
    }
}

#[test]
fn a_source_without_a_width_is_budgeted_as_sixteen_by_nine() {
    assert_eq!(ResolutionMode::MatchDisplay.resolve(Some((0, 1080))), (1920, 1080));
    assert_eq!(ResolutionMode::MatchDisplay.resolve(Some((0, 5000))), (3840, 2160));
}
