use color_wheel::{hsl_to_rgb, Fraction};

fn frac(num: u32, den: u32) -> Fraction {
    Fraction::new(num, den)
}

fn test_hsl_to_rgb(h: i32, s: Fraction, l: Fraction, expected: u32, name: &str) {
    let computed = hsl_to_rgb(h, s, l);
    assert_eq!(
        computed, expected,
        "HSL to RGB conversion failed: {}. Got {:06X}, expected {:06X}",
        name, computed, expected
    );
}

#[test]
fn test_hsl_to_rgb_black() {
    test_hsl_to_rgb(0, frac(0, 1), frac(0, 1), 0x000000, "Black");
}

#[test]
fn test_hsl_to_rgb_white() {
    test_hsl_to_rgb(0, frac(0, 1), frac(1, 1), 0xFFFFFF, "White");
}

#[test]
fn test_hsl_to_rgb_red() {
    test_hsl_to_rgb(0, frac(1, 1), frac(1, 2), 0xFF0000, "Red");
}

#[test]
fn test_hsl_to_rgb_lime() {
    test_hsl_to_rgb(120, frac(1, 1), frac(1, 2), 0x00FF00, "Lime");
}

#[test]
fn test_hsl_to_rgb_blue() {
    test_hsl_to_rgb(240, frac(1, 1), frac(1, 2), 0x0000FF, "Blue");
}

#[test]
fn test_hsl_to_rgb_yellow() {
    test_hsl_to_rgb(60, frac(1, 1), frac(1, 2), 0xFFFF00, "Yellow");
}

#[test]
fn test_hsl_to_rgb_cyan() {
    test_hsl_to_rgb(180, frac(1, 1), frac(1, 2), 0x00FFFF, "Cyan");
}

#[test]
fn test_hsl_to_rgb_magenta() {
    test_hsl_to_rgb(300, frac(1, 1), frac(1, 2), 0xFF00FF, "Magenta");
}

#[test]
fn test_hsl_to_rgb_silver() {
    test_hsl_to_rgb(0, frac(0, 1), frac(3, 4), 0xBFBFBF, "Silver");
}

#[test]
fn test_hsl_to_rgb_gray() {
    test_hsl_to_rgb(0, frac(0, 1), frac(1, 2), 0x808080, "Gray");
}

#[test]
fn test_hsl_to_rgb_maroon() {
    test_hsl_to_rgb(0, frac(1, 1), frac(1, 4), 0x800000, "Maroon");
}

#[test]
fn test_hsl_to_rgb_olive() {
    test_hsl_to_rgb(60, frac(1, 1), frac(1, 4), 0x808000, "Olive");
}

#[test]
fn test_hsl_to_rgb_green() {
    test_hsl_to_rgb(120, frac(1, 1), frac(1, 4), 0x008000, "Green");
}

#[test]
fn test_hsl_to_rgb_purple() {
    test_hsl_to_rgb(300, frac(1, 1), frac(1, 4), 0x800080, "Purple");
}

#[test]
fn test_hsl_to_rgb_teal() {
    test_hsl_to_rgb(180, frac(1, 1), frac(1, 4), 0x008080, "Teal");
}

#[test]
fn test_hsl_to_rgb_navy() {
    test_hsl_to_rgb(240, frac(1, 1), frac(1, 4), 0x000080, "Navy");
}

#[test]
fn achromatic_at_every_hue() {
    for h in [0, 45, 90, 200, 359] {
        assert_eq!(hsl_to_rgb(h, frac(0, 1), frac(3, 4)), 0xBFBFBF);
        assert_eq!(hsl_to_rgb(h, frac(0, 1), frac(1, 5)), 0x333333);
    }
}

#[test]
fn full_turn_gives_same_color() {
    assert_eq!(hsl_to_rgb(360, frac(1, 1), frac(1, 2)), hsl_to_rgb(0, frac(1, 1), frac(1, 2)));
    assert_eq!(hsl_to_rgb(360, frac(1, 1), frac(1, 2)), 0xFF0000);
    assert_eq!(hsl_to_rgb(-60, frac(1, 1), frac(1, 2)), 0xFF00FF);
    assert_eq!(hsl_to_rgb(420, frac(2, 3), frac(2, 5)), hsl_to_rgb(60, frac(2, 3), frac(2, 5)));
}

#[test]
fn sector_midpoints() {
    assert_eq!(hsl_to_rgb(30, frac(1, 1), frac(1, 2)), 0xFF8000);
    assert_eq!(hsl_to_rgb(90, frac(1, 1), frac(1, 2)), 0x80FF00);
    assert_eq!(hsl_to_rgb(210, frac(1, 1), frac(1, 2)), 0x0080FF);
    assert_eq!(hsl_to_rgb(330, frac(1, 1), frac(1, 2)), 0xFF0080);
}

#[test]
fn rounds_to_nearest() {
    // 0.3 * 255 = 76.5 rounds up; 0.1 * 255 = 25.5 rounds up.
    assert_eq!(hsl_to_rgb(0, frac(0, 1), frac(3, 10)), 0x4D4D4D);
    assert_eq!(hsl_to_rgb(0, frac(0, 1), frac(1, 10)), 0x1A1A1A);
    // 1/3 * 255 = 85 exactly.
    assert_eq!(hsl_to_rgb(0, frac(0, 1), frac(1, 3)), 0x555555);
}

#[test]
fn lightness_above_one_is_clamped_to_white() {
    assert_eq!(hsl_to_rgb(100, frac(1, 1), frac(2, 1)), 0xFFFFFF);
    assert_eq!(hsl_to_rgb(0, frac(0, 1), frac(3, 2)), 0xFFFFFF);
}
