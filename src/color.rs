use vstd::prelude::*;

verus! {

/// A non-negative rational number `num / den`, used for saturation and
/// lightness so that the conversion is exact.
#[derive(Clone, Copy, Debug, PartialEq, Eq, Structural)]
pub struct Fraction {
    pub num: u32,
    pub den: u32,
}

impl Fraction {
    /// A fraction is well formed when its denominator is positive.
    pub open spec fn wf(self) -> bool {
        self.den > 0
    }

    pub fn new(num: u32, den: u32) -> (r: Fraction)
        requires
            den > 0,
        ensures
            r.num == num,
            r.den == den,
            r.wf(),
    {
        Fraction { num, den }
    }
}

pub open spec fn abs(v: int) -> int {
    if v < 0 {
        -v
    } else {
        v
    }
}

/// The hue read modulo 360, in `[0, 360)`.
pub open spec fn normalize_hue(h: int) -> int {
    h % 360
}

/// All intermediate quantities are numerators over this common denominator.
pub open spec fn scale(s: Fraction, l: Fraction) -> int {
    120 * l.den * s.den
}

/// `(1 - |2l - 1|) * s`, as a numerator over `l.den * s.den`.
pub open spec fn chroma_num(s: Fraction, l: Fraction) -> int {
    (l.den - abs(2 * l.num - l.den)) * s.num
}

/// `60 * (1 - |(h / 60) mod 2 - 1|)` for a hue in `[0, 360)`.
pub open spec fn secondary_weight(h: int) -> int {
    60 - abs(h % 120 - 60)
}

/// The offset `m = l - c / 2`, over `scale(s, l)`.
pub open spec fn offset_num(s: Fraction, l: Fraction) -> int {
    120 * l.num * s.den - 60 * chroma_num(s, l)
}

/// The sector's `(r', g', b')` over `scale(s, l)`, for a hue in `[0, 360)`.
pub open spec fn sector_components(h: int, s: Fraction, l: Fraction) -> (int, int, int) {
    let c = 120 * chroma_num(s, l);
    let x = 2 * chroma_num(s, l) * secondary_weight(h);
    if h < 60 {
        (c, x, 0)
    } else if h < 120 {
        (x, c, 0)
    } else if h < 180 {
        (0, c, x)
    } else if h < 240 {
        (0, x, c)
    } else if h < 300 {
        (x, 0, c)
    } else {
        (c, 0, x)
    }
}

/// `round(255 * n / q)`, half away from zero, clamped to `[0, 255]`.
pub open spec fn to_channel(n: int, q: int) -> int {
    if n <= 0 {
        0
    } else {
        let v = (510 * n + q) / (2 * q);
        if v > 255 {
            255
        } else {
            v
        }
    }
}

/// Three channels packed as `0xRRGGBB`.
pub open spec fn pack(r: int, g: int, b: int) -> int {
    r * 65536 + g * 256 + b
}

/// The packed color of hue `h` (degrees, read modulo 360), saturation `s`
/// and lightness `l`.
pub open spec fn hsl_color(h: int, s: Fraction, l: Fraction) -> int {
    let hn = normalize_hue(h);
    let q = scale(s, l);
    let m = offset_num(s, l);
    let (rp, gp, bp) = sector_components(hn, s, l);
    pack(to_channel(rp + m, q), to_channel(gp + m, q), to_channel(bp + m, q))
}

const BOUND: i128 = 0x1_0000_0000_0000_0000_0000;

fn channel(n: i128, q: i128) -> (r: u32)
    requires
        0 < q < BOUND,
        -BOUND < n < BOUND,
    ensures
        r == to_channel(n as int, q as int),
        r <= 255,
{
    if n <= 0 {
        0
    } else {
        let v = (510 * n + q) / (2 * q);
        if v > 255 {
            255
        } else {
            v as u32
        }
    }
}

fn hue_in_circle(h: i32) -> (r: i128)
    ensures
        r == normalize_hue(h as int),
        0 <= r < 360,
{
    let shifted: i64 = h as i64 + 2_160_000_000;
    let r: u64 = (shifted as u64) % 360;
    proof {
        let k: int = 6_000_000;
        assert((h as int + 360 * k) % 360 == (h as int) % 360) by {
            vstd::arithmetic::div_mod::lemma_mod_multiples_vanish(k, h as int, 360);
        }
    }
    r as i128
}

/// Converts hue `h` (degrees, read modulo 360), saturation `s` and lightness
/// `l` to a color packed as `0xRRGGBB`. Each channel is rounded to the
/// nearest integer and clamped to `[0, 255]`.
pub fn hsl_to_rgb(h: i32, s: Fraction, l: Fraction) -> (r: u32)
    requires
        s.wf(),
        l.wf(),
    ensures
        r == hsl_color(h as int, s, l),
{
    let hn = hue_in_circle(h);
    let ln = l.num as i128;
    let ld = l.den as i128;
    let sn = s.num as i128;
    let sd = s.den as i128;
    let dev = 2 * ln - ld;
    let spread = if dev < 0 { ld + dev } else { ld - dev };
    assert(-0x2_0000_0000 <= spread <= 0x1_0000_0000);
    assert(-0x2_0000_0000_0000_0000 <= spread * sn <= 0x1_0000_0000_0000_0000) by (nonlinear_arith)
        requires
            -0x2_0000_0000 <= spread <= 0x1_0000_0000,
            0 <= sn <= 0xffff_ffff,
    ;
    let c = spread * sn;
    let t = hn % 120;
    let weight = if t < 60 { t } else { 120 - t };
    assert(0 <= weight <= 60);
    assert(-0x2_0000_0000_0000_0000 * 60 <= c * weight <= 0x1_0000_0000_0000_0000 * 60) by (nonlinear_arith)
        requires
            -0x2_0000_0000_0000_0000 <= c <= 0x1_0000_0000_0000_0000,
            0 <= weight <= 60,
    ;
    let big = 120 * c;
    let cw = c * weight;
    let small = 2 * cw;
    assert(0 <= ln * sd <= 0xffff_ffff * 0xffff_ffff) by (nonlinear_arith)
        requires
            0 <= ln <= 0xffff_ffff,
            0 <= sd <= 0xffff_ffff,
    ;
    assert(0 < ld * sd <= 0xffff_ffff * 0xffff_ffff) by (nonlinear_arith)
        requires
            0 < ld <= 0xffff_ffff,
            0 < sd <= 0xffff_ffff,
    ;
    let m = 120 * (ln * sd) - 60 * c;
    assert(-BOUND / 2 < big < BOUND / 2 && -BOUND / 2 < small < BOUND / 2 && -BOUND / 2 < m < BOUND / 2);
    let q = 120 * (ld * sd);
    let (rp, gp, bp) = if hn < 60 {
        (big, small, 0)
    } else if hn < 120 {
        (small, big, 0)
    } else if hn < 180 {
        (0, big, small)
    } else if hn < 240 {
        (0, small, big)
    } else if hn < 300 {
        (small, 0, big)
    } else {
        (big, 0, small)
    };
    let red = channel(rp + m, q);
    let green = channel(gp + m, q);
    let blue = channel(bp + m, q);
    proof {
        assert(120 * (ln * sd) == 120 * l.num * s.den) by (nonlinear_arith)
            requires ln == l.num, sd == s.den;
        assert(120 * (ld * sd) == 120 * l.den * s.den) by (nonlinear_arith)
            requires ld == l.den, sd == s.den;
        assert(2 * cw == 2 * chroma_num(s, l) * secondary_weight(hn as int)) by (nonlinear_arith)
            requires cw == c * weight, c == chroma_num(s, l), weight == secondary_weight(hn as int);
    }
    red * 65536 + green * 256 + blue
}

proof fn lemma_cancel_factor(a: int, b: int, k: int)
    requires
        a >= 0,
        b > 0,
        k > 0,
    ensures
        (a * k) / (b * k) == a / b,
{
    let q = a / b;
    let r = a % b;
    vstd::arithmetic::div_mod::lemma_fundamental_div_mod(a, b);
    assert(a * k == q * (b * k) + r * k && 0 <= r * k < b * k) by (nonlinear_arith)
        requires
            a == b * q + r,
            0 <= r < b,
            k > 0,
    ;
    vstd::arithmetic::div_mod::lemma_fundamental_div_mod_converse(a * k, b * k, q, r * k);
}

/// `round(255 * l)`, clamped to `[0, 255]`: the gray level of lightness `l`.
pub open spec fn gray_level(l: Fraction) -> int {
    to_channel(l.num as int, l.den as int)
}

/// With no saturation the color is achromatic: red, green and blue all equal
/// `round(255 * l)`, whatever the hue.
pub proof fn lemma_achromatic(h: int, s: Fraction, l: Fraction)
    requires
        s.wf(),
        l.wf(),
        s.num == 0,
    ensures
        hsl_color(h, s, l) == pack(gray_level(l), gray_level(l), gray_level(l)),
{
    let k = 120 * s.den;
    assert(chroma_num(s, l) == 0);
    assert(scale(s, l) == l.den * k && offset_num(s, l) == l.num * k) by (nonlinear_arith)
        requires
            k == 120 * s.den,
            chroma_num(s, l) == 0,
    ;
    let w = secondary_weight(normalize_hue(h));
    assert(2 * chroma_num(s, l) * w == 0) by (nonlinear_arith)
        requires
            chroma_num(s, l) == 0,
    ;
    assert(sector_components(normalize_hue(h), s, l) == (0int, 0int, 0int));
    if l.num > 0 {
        assert((510 * (l.num * k) + l.den * k) == (510 * l.num + l.den) * k && 2 * (l.den * k) == (2 * l.den) * k)
            by (nonlinear_arith);
        lemma_cancel_factor(510 * l.num + l.den, 2 * l.den, k);
        assert(l.num * k > 0) by (nonlinear_arith)
            requires
                l.num > 0,
                k > 0,
        ;
        assert(to_channel(offset_num(s, l), scale(s, l)) == gray_level(l));
    } else {
        assert(l.num * k == 0) by (nonlinear_arith)
            requires
                l.num == 0,
        ;
        assert(to_channel(offset_num(s, l), scale(s, l)) == gray_level(l));
    }
}

/// Hue is read modulo 360: a full turn gives the same color.
pub proof fn lemma_hue_full_turn(h: int, s: Fraction, l: Fraction)
    requires
        s.wf(),
        l.wf(),
    ensures
        hsl_color(h + 360, s, l) == hsl_color(h, s, l),
{
    vstd::arithmetic::div_mod::lemma_mod_multiples_vanish(1, h, 360);
}

} // verus!
