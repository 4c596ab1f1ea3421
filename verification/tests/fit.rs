//! How a source of one shape fits a frame of another.

use rewynd::fit::{aspect_matches, contain_scale};

fn scale(src_w: u32, src_h: u32, dst_w: u32, dst_h: u32) -> [f32; 2] {
    let [x, y] = contain_scale(src_w, src_h, dst_w, dst_h);
    [x.num as f32 / x.den as f32, y.num as f32 / y.den as f32]
}


/// The scale factors are compared as pixels-of-picture, which is what actually matters.
fn close(a: f32, b: f32) -> bool {
    (a - b).abs() < 1e-4
}

#[test]
fn identical_shapes_need_no_letterbox() {
    assert!(aspect_matches(1920, 1080, 1920, 1080));
    assert!(aspect_matches(3840, 2160, 1920, 1080), "same 16:9, scaled");
    assert!(aspect_matches(3440, 1440, 2580, 1080), "same 21:9, scaled");
}

#[test]
fn the_even_rounding_wobble_stays_within_tolerance() {
    // 2580×1080 is 3440×1440 after the even-rounding; the tiny aspect drift must not
    // trigger a pointless extra GPU pass on every frame.
    assert!(aspect_matches(3440, 1440, 2580, 1080));
    assert!(aspect_matches(1367, 769, 1366, 768));
}

#[test]
fn different_shapes_need_a_letterbox() {
    assert!(!aspect_matches(3440, 1440, 1920, 1080), "21:9 into 16:9");
    assert!(!aspect_matches(1920, 1200, 1920, 1080), "16:10 into 16:9");
    assert!(!aspect_matches(1600, 1200, 1920, 1080), "4:3 into 16:9");
    assert!(
        !aspect_matches(1080, 1920, 1920, 1080),
        "portrait into 16:9"
    );
}

#[test]
fn a_degenerate_size_falls_through_to_the_plain_path() {
    assert!(aspect_matches(0, 1080, 1920, 1080));
    assert!(aspect_matches(1920, 1080, 1920, 0));
    assert_eq!(scale(0, 0, 1920, 1080), [1.0, 1.0]);
}

#[test]
fn a_wider_source_gets_bars_top_and_bottom() {
    let [x, y] = scale(3440, 1440, 1920, 1080);
    assert!(close(x, 1.0), "spans the full width");
    // 1920 px wide at 21:9 is 804 lines of picture inside a 1080-line frame.
    assert!(close(y, (1920.0 / (3440.0 / 1440.0)) / 1080.0), "y = {y}");
    assert!(y < 1.0);
}

#[test]
fn a_taller_source_gets_bars_left_and_right() {
    let [x, y] = scale(1600, 1200, 1920, 1080);
    assert!(close(y, 1.0), "spans the full height");
    // 1080 lines at 4:3 is 1440 px of picture inside a 1920 px frame.
    assert!(close(x, 1440.0 / 1920.0), "x = {x}");
}

#[test]
fn a_matching_source_fills_the_frame() {
    assert_eq!(scale(1920, 1080, 3840, 2160), [1.0, 1.0]);
}

#[test]
fn the_fit_never_crops() {
    for (sw, sh) in [(3440, 1440), (1920, 1200), (1600, 1200), (1080, 1920)] {
        let [x, y] = scale(sw, sh, 1920, 1080);
        assert!(x <= 1.0 && y <= 1.0, "{sw}x{sh} scaled past the frame");
        assert!(x > 0.0 && y > 0.0, "{sw}x{sh} collapsed");
    }
}

#[test]
fn the_scale_is_an_exact_ratio() {
    let [x, y] = contain_scale(1600, 1200, 1920, 1080);
    assert_eq!(u128::from(x.num) * 4, u128::from(x.den) * 3);
    assert_eq!(y.num, y.den);
}
