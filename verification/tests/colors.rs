//! The public color helpers: intensity scaling and reflective blending.

use computer_graphics_from_scratch_rs::fx::SCALE;
use computer_graphics_from_scratch_rs::primitive::{lerp_color, scale_color, Color};

#[test]
fn scale_color_scales_rgb_and_forces_alpha() {
    let c = Color { r: 255000, g: 128000, b: 1000, a: 77 };
    let half = scale_color(c, 500);
    assert_eq!(half, Color { r: 127500, g: 64000, b: 500, a: 255000 });
}

#[test]
fn scale_color_by_zero_is_black() {
    let c = Color { r: 255000, g: 128000, b: 64000, a: 255000 };
    assert_eq!(scale_color(c, 0), Color { r: 0, g: 0, b: 0, a: 255000 });
}

#[test]
fn scale_color_can_exceed_the_display_range() {
    // The core does not clamp to [0, 255]: intensity 2.0 doubles channels.
    let c = Color { r: 200000, g: 0, b: 0, a: 255000 };
    assert_eq!(scale_color(c, 2000).r, 400000);
}

#[test]
fn lerp_color_endpoints() {
    let a = Color { r: 10000, g: 20000, b: 30000, a: 1 };
    let b = Color { r: 50000, g: 60000, b: 70000, a: 2 };
    assert_eq!(lerp_color(a, b, 0), Color { r: 10000, g: 20000, b: 30000, a: 255000 });
    assert_eq!(lerp_color(a, b, SCALE), Color { r: 50000, g: 60000, b: 70000, a: 255000 });
}

#[test]
fn lerp_color_midpoint() {
    let a = Color { r: 10000, g: 20000, b: 30000, a: 255000 };
    let b = Color { r: 50000, g: 60000, b: 70000, a: 255000 };
    assert_eq!(lerp_color(a, b, 500), Color { r: 30000, g: 40000, b: 50000, a: 255000 });
}
