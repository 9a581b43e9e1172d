use vstd::prelude::*;
use crate::color::{Fraction, hsl_color, hsl_to_rgb};

verus! {

/// Squared Euclidean distance of `(x, y)` from `(cx, cy)`.
pub open spec fn dist_sq(x: int, y: int, cx: int, cy: int) -> int {
    (x - cx) * (x - cx) + (y - cy) * (y - cy)
}

/// The ring of the rotating wheel: `0.35 * m < sqrt(d2) < 0.4 * m`, where `m`
/// is the smaller side of the buffer, stated on the squared distance.
pub open spec fn in_ring(d2: int, m: int) -> bool {
    49 * m * m < 400 * d2 && 25 * d2 < 4 * m * m
}

/// The hue of a ring pixel whose angle (whole degrees) is `angle`, at `time`.
pub open spec fn ring_hue(angle: int, time: int) -> int {
    (angle + time) % 360
}

pub open spec fn full() -> Fraction {
    Fraction { num: 1, den: 1 }
}

pub open spec fn half() -> Fraction {
    Fraction { num: 1, den: 2 }
}

pub open spec fn min_side(width: int, height: int) -> int {
    if width < height {
        width
    } else {
        height
    }
}

/// The color of pixel `(x, y)` of the ring mode: inside the ring, the hue of
/// its angle turned by `time` at full saturation and half lightness; black
/// elsewhere. The center is `(width / 2, height / 2)`.
pub open spec fn ring_color(x: int, y: int, width: int, height: int, angle: int, time: int) -> int {
    if in_ring(dist_sq(x, y, width / 2, height / 2), min_side(width, height)) {
        hsl_color(ring_hue(angle, time), full(), half())
    } else {
        0
    }
}

/// The color of pixel `i` of the gradient mode: hue `i mod 360`, full
/// saturation, lightness `i / 36000`.
pub open spec fn gradient_color(i: int) -> int {
    hsl_color(i % 360, full(), Fraction { num: i as u32, den: 36000 })
}

/// The squared Euclidean distance of `(x, y)` from `(center_x, center_y)`.
pub fn distance_squared_from_center(x: i32, y: i32, center_x: i32, center_y: i32) -> (r: u128)
    ensures
        r == dist_sq(x as int, y as int, center_x as int, center_y as int),
        r <= 0x2_0000_0000_0000_0000,
{
    let dx = x as i64 - center_x as i64;
    let dy = y as i64 - center_y as i64;
    assert(0 <= dx * dx <= 0x1_0000_0000 * 0x1_0000_0000) by (nonlinear_arith)
        requires
            -0x1_0000_0000 <= dx <= 0x1_0000_0000,
    ;
    assert(0 <= dy * dy <= 0x1_0000_0000 * 0x1_0000_0000) by (nonlinear_arith)
        requires
            -0x1_0000_0000 <= dy <= 0x1_0000_0000,
    ;
    let dx = dx as i128;
    let dy = dy as i128;
    (dx * dx + dy * dy) as u128
}

/// The color of pixel `(x, y)` in the ring mode, given the pixel's angle
/// around the center in whole degrees.
pub fn ring_pixel(x: i32, y: i32, width: i32, height: i32, angle: u32, time: u32) -> (r: u32)
    requires
        width >= 0,
        height >= 0,
    ensures
        r == ring_color(x as int, y as int, width as int, height as int, angle as int, time as int),
{
    let d2 = distance_squared_from_center(x, y, width / 2, height / 2);
    let m: u128 = if width < height { width as u128 } else { height as u128 };
    assert(m * m <= 0x8000_0000 * 0x8000_0000) by (nonlinear_arith)
        requires
            m <= 0x8000_0000,
    ;
    let ghost mi = min_side(width as int, height as int);
    assert(m == mi);
    assert(49 * (m * m) == 49 * mi * mi && 4 * (m * m) == 4 * mi * mi) by (nonlinear_arith)
        requires
            m == mi,
    ;
    if 49 * (m * m) < 400 * d2 && 25 * d2 < 4 * (m * m) {
        let hue = ((angle as u64 + time as u64) % 360) as i32;
        hsl_to_rgb(hue, Fraction::new(1, 1), Fraction::new(1, 2))
    } else {
        0
    }
}

/// Fills `buffer` (row-major, `width * height` pixels) with one frame of the
/// ring mode; `angles[i]` is the angle of pixel `i` in whole degrees.
pub fn render_ring(buffer: &mut Vec<u32>, width: usize, height: usize, angles: &Vec<u32>, time: u32)
    requires
        width <= i32::MAX,
        height <= i32::MAX,
        old(buffer).len() == width * height,
        angles.len() == width * height,
    ensures
        final(buffer).len() == width * height,
        forall|i: int|
            0 <= i < width * height ==> final(buffer)[i] == ring_color(
                i % width as int,
                i / width as int,
                width as int,
                height as int,
                angles[i] as int,
                time as int,
            ),
{
    let n = buffer.len();
    let mut i: usize = 0;
    let mut x: usize = 0;
    let mut y: usize = 0;
    while i < n
        invariant
            n == width * height,
            buffer.len() == n,
            angles.len() == n,
            width <= i32::MAX,
            height <= i32::MAX,
            i <= n,
            i == y * width + x,
            i < n ==> x < width,
            forall|j: int|
                0 <= j < i ==> buffer[j] == ring_color(
                    j % width as int,
                    j / width as int,
                    width as int,
                    height as int,
                    angles[j] as int,
                    time as int,
                ),
        decreases n - i,
    {
        assert(y < height) by (nonlinear_arith)
            requires
                i == y * width + x,
                i < n,
                n == width * height,
        ;
        proof {
            vstd::arithmetic::div_mod::lemma_fundamental_div_mod_converse(
                i as int,
                width as int,
                y as int,
                x as int,
            );
        }
        buffer[i] = ring_pixel(x as i32, y as i32, width as i32, height as i32, angles[i], time);
        i = i + 1;
        if x + 1 == width {
            assert(i == (y + 1) * width) by (nonlinear_arith)
                requires
                    i == y * width + x + 1,
                    x + 1 == width,
            ;
            x = 0;
            y = y + 1;
        } else {
            x = x + 1;
        }
    }
}

/// Fills `buffer` with the gradient mode: pixel `i` gets hue `i mod 360`, full
/// saturation and lightness `i / 36000`.
pub fn render_gradient(buffer: &mut Vec<u32>)
    requires
        old(buffer).len() <= u32::MAX,
    ensures
        final(buffer).len() == old(buffer).len(),
        forall|i: int| 0 <= i < final(buffer).len() ==> final(buffer)[i] == gradient_color(i),
{
    let n = buffer.len();
    let mut i: usize = 0;
    while i < n
        invariant
            buffer.len() == n,
            n <= u32::MAX,
            i <= n,
            forall|j: int| 0 <= j < i ==> buffer[j] == gradient_color(j),
        decreases n - i,
    {
        let hue = (i % 360) as i32;
        buffer[i] = hsl_to_rgb(hue, Fraction::new(1, 1), Fraction::new(i as u32, 36000));
        i = i + 1;
    }
}

/// The frame clock after one frame: ten more degrees of rotation, kept in
/// `[0, 360)`.
pub fn next_time(time: u32) -> (r: u32)
    ensures
        r == (time + 10) % 360,
{
    ((time as u64 + 10) % 360) as u32
}

/// Keeping the clock in `[0, 360)` changes no ring hue: the wrapped clock
/// turns every angle exactly as the unbounded one does.
pub proof fn lemma_wrapped_clock(angle: int, time: int)
    requires
        angle >= 0,
        time >= 0,
    ensures
        ring_hue(angle, (time + 10) % 360) == ring_hue(angle, time + 10),
{
    vstd::arithmetic::div_mod::lemma_add_mod_noop(angle, time + 10, 360);
    vstd::arithmetic::div_mod::lemma_mod_twice(time + 10, 360);
    vstd::arithmetic::div_mod::lemma_add_mod_noop(angle, (time + 10) % 360, 360);
}

/// The pixel at the center is black at every time and for every angle.
pub proof fn lemma_center_black(width: int, height: int, angle: int, time: int)
    requires
        width >= 0,
        height >= 0,
    ensures
        ring_color(width / 2, height / 2, width, height, angle, time) == 0,
{
    let m = min_side(width, height);
    assert(49 * m * m >= 0) by (nonlinear_arith);
}

} // verus!
