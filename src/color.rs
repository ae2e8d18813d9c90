use vstd::prelude::*;

verus! {

/// An 8-bit-per-channel RGBA color, not premultiplied.
#[derive(Clone, Copy, Debug, PartialEq, Eq, Structural)]
pub struct Color {
    pub r: u8,
    pub g: u8,
    pub b: u8,
    pub a: u8,
}

/// Total alpha of `front` over `back`, scaled by `255 * 255`:
/// `255² · (1 - (1 - fa)(1 - ba))` with both alphas read as fractions of 255.
pub open spec fn coverage_scaled(back_a: int, front_a: int) -> int {
    255 * front_a + back_a * (255 - front_a)
}

/// One color channel of `front` over `back`:
/// `(front·fa + back·ba·(1 - fa)) / a`, rounded down.
pub open spec fn channel_over(back: int, back_a: int, front: int, front_a: int) -> int {
    (front * front_a * 255 + back * back_a * (255 - front_a)) / coverage_scaled(back_a, front_a)
}

/// Source-over compositing of `front` onto `back`.
///
/// A transparent `front` leaves `back` as it is, an opaque one replaces it;
/// otherwise each channel follows the non-premultiplied formula and the
/// alpha is `a · 255` rounded to the nearest integer. With `front.a > 0` the
/// total alpha is never zero, so the formula never divides by zero.
pub open spec fn composite(back: Color, front: Color) -> Color {
    if front.a == 0 {
        back
    } else if front.a == 255 {
        front
    } else {
        Color {
            r: channel_over(back.r as int, back.a as int, front.r as int, front.a as int) as u8,
            g: channel_over(back.g as int, back.a as int, front.g as int, front.a as int) as u8,
            b: channel_over(back.b as int, back.a as int, front.b as int, front.a as int) as u8,
            a: ((coverage_scaled(back.a as int, front.a as int) + 127) / 255) as u8,
        }
    }
}

proof fn lemma_channel_bounds(back: int, back_a: int, front: int, front_a: int)
    requires
        0 <= back <= 255,
        0 <= back_a <= 255,
        0 <= front <= 255,
        0 < front_a <= 255,
    ensures
        0 < coverage_scaled(back_a, front_a) <= 255 * 255,
        0 <= front * front_a * 255 + back * back_a * (255 - front_a)
            <= 255 * coverage_scaled(back_a, front_a),
        0 <= channel_over(back, back_a, front, front_a) <= 255,
{
    let a = coverage_scaled(back_a, front_a);
    let n = front * front_a * 255 + back * back_a * (255 - front_a);
    assert(0 < a <= 255 * 255) by (nonlinear_arith)
        requires
            a == 255 * front_a + back_a * (255 - front_a),
            0 <= back_a <= 255,
            0 < front_a <= 255,
    ;
    assert(0 <= n <= 255 * a) by (nonlinear_arith)
        requires
            a == 255 * front_a + back_a * (255 - front_a),
            n == front * front_a * 255 + back * back_a * (255 - front_a),
            0 <= back <= 255,
            0 <= back_a <= 255,
            0 <= front <= 255,
            0 < front_a <= 255,
    ;
    assert(0 <= n / a <= 255) by (nonlinear_arith)
        requires
            0 < a,
            0 <= n <= 255 * a,
    ;
}

fn blend_channel(back: u8, back_a: u8, front: u8, front_a: u8) -> (r: u8)
    requires
        0 < front_a,
    ensures
        r == channel_over(back as int, back_a as int, front as int, front_a as int),
{
    proof {
        lemma_channel_bounds(back as int, back_a as int, front as int, front_a as int);
    }
    let a: u32 = 255 * front_a as u32 + back_a as u32 * (255 - front_a as u32);
    assert(front as int * front_a as int <= 255 * 255) by (nonlinear_arith)
        requires
            front <= 255,
            front_a <= 255,
    ;
    assert(back as int * back_a as int <= 255 * 255) by (nonlinear_arith)
        requires
            back <= 255,
            back_a <= 255,
    ;
    let ink: u32 = front as u32 * front_a as u32 * 255;
    let under: u32 = back as u32 * back_a as u32;
    assert(under * (255 - front_a as u32) <= 255 * 255 * 255) by (nonlinear_arith)
        requires
            under == back as u32 * back_a as u32,
            back <= 255,
            back_a <= 255,
            front_a <= 255,
    ;
    let n: u32 = ink + under * (255 - front_a as u32);
    (n / a) as u8
}

/// Composites `front` over `back` ("source over").
pub fn blend_color(back: Color, front: Color) -> (r: Color)
    ensures
        r == composite(back, front),
{
    if front.a == 0 {
        back
    } else if front.a == 255 {
        front
    } else {
        proof {
            lemma_channel_bounds(0, back.a as int, 0, front.a as int);
        }
        let total: u32 = 255 * front.a as u32 + back.a as u32 * (255 - front.a as u32);
        Color {
            r: blend_channel(back.r, back.a, front.r, front.a),
            g: blend_channel(back.g, back.a, front.g, front.a),
            b: blend_channel(back.b, back.a, front.b, front.a),
            a: ((total + 127) / 255) as u8,
        }
    }
}

/// A fully transparent color composited over any color leaves it unchanged,
/// and a fully opaque one replaces it.
pub proof fn lemma_composite_transparent_and_opaque(back: Color, front: Color)
    ensures
        front.a == 0 ==> composite(back, front) == back,
        front.a == 255 ==> composite(back, front) == front,
{
}

/// The general formula agrees with both special cases: it keeps `back` for a
/// transparent `front` over a visible `back`, and yields `front` for an
/// opaque `front`. The special cases are therefore shortcuts only.
pub proof fn lemma_composite_formula_agrees(back: Color, front: Color)
    ensures
        front.a == 0 && back.a > 0 ==> {
            &&& channel_over(back.r as int, back.a as int, 0, 0) == back.r
            &&& channel_over(back.g as int, back.a as int, 0, 0) == back.g
            &&& channel_over(back.b as int, back.a as int, 0, 0) == back.b
            &&& (coverage_scaled(back.a as int, 0) + 127) / 255 == back.a
        },
        front.a == 255 ==> {
            &&& channel_over(back.r as int, back.a as int, front.r as int, 255) == front.r
            &&& channel_over(back.g as int, back.a as int, front.g as int, 255) == front.g
            &&& channel_over(back.b as int, back.a as int, front.b as int, 255) == front.b
            &&& (coverage_scaled(back.a as int, 255) + 127) / 255 == 255
        },
{
    if front.a == 0 && back.a > 0 {
        let ba = back.a as int;
        assert forall|c: int| 0 <= c <= 255 implies channel_over(c, ba, 0, 0) == c by {
            assert(coverage_scaled(ba, 0) == ba * 255);
            assert(c * ba * (255 - 0) == c * (ba * 255)) by (nonlinear_arith);
            assert((c * (ba * 255)) / (ba * 255) == c) by (nonlinear_arith)
                requires
                    ba > 0,
            ;
        }
        assert((ba * 255 + 127) / 255 == ba) by (nonlinear_arith);
    }
    if front.a == 255 {
        let ba = back.a as int;
        assert forall|c: int, d: int| 0 <= c <= 255 implies channel_over(d, ba, c, 255) == c by {
            assert(coverage_scaled(ba, 255) == 255 * 255);
            assert(d * ba * (255 - 255) == 0) by (nonlinear_arith);
            assert((c * 255 * 255 + 0) / 65025int == c) by (nonlinear_arith);
        }
    }
}

} // verus!
