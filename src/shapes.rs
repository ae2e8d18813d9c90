use vstd::prelude::*;

verus! {

// Pixel (x, y) is sampled at its center (x + 1/2, y + 1/2). Doubling every
// length keeps the tests exact in integers: the center lies at offset
// (2(x - cx) + 1) / 2 from the shape's center.

/// Whether the center of pixel `(x, y)` lies in the disc of radius `r`
/// around `(cx, cy)`: `(x - cx + ½)² + (y - cy + ½)² ≤ r²`. A disc of
/// radius zero is the single pixel `(cx, cy)`.
pub open spec fn in_disc(cx: int, cy: int, r: int, x: int, y: int) -> bool {
    let dx = 2 * (x - cx) + 1;
    let dy = 2 * (y - cy) + 1;
    if r == 0 {
        x == cx && y == cy
    } else {
        dx * dx + dy * dy <= 4 * r * r
    }
}

/// Whether the center of pixel `(x, y)` lies in the ellipse with radii
/// `rx`, `ry` around `(cx, cy)`: `dx²/rx² + dy²/ry² ≤ 1` with
/// `dx = x - cx + ½`, `dy = y - cy + ½`. A zero radius covers no center.
pub open spec fn in_oval(cx: int, cy: int, rx: int, ry: int, x: int, y: int) -> bool {
    let dx = 2 * (x - cx) + 1;
    let dy = 2 * (y - cy) + 1;
    rx > 0 && ry > 0 && dx * dx * (ry * ry) + dy * dy * (rx * rx) <= 4 * (rx * rx) * (ry * ry)
}

/// A covered center lies within `r` of the center on each axis.
pub proof fn lemma_disc_within_box(cx: int, cy: int, r: int, x: int, y: int)
    requires
        r >= 0,
        in_disc(cx, cy, r, x, y),
    ensures
        cx - r <= x <= cx + r,
        cy - r <= y <= cy + r,
{
    if r == 0 {
        return;
    }
    let dx = 2 * (x - cx) + 1;
    let dy = 2 * (y - cy) + 1;
    assert(dx * dx <= 4 * r * r) by (nonlinear_arith)
        requires
            dx * dx + dy * dy <= 4 * r * r,
    ;
    assert(dy * dy <= 4 * r * r) by (nonlinear_arith)
        requires
            dx * dx + dy * dy <= 4 * r * r,
    ;
    assert(4 * r * r == (2 * r) * (2 * r)) by (nonlinear_arith);
    lemma_square_bound(dx, 2 * r);
    lemma_square_bound(dy, 2 * r);
}

/// A covered center lies within the radius of the center on each axis.
pub proof fn lemma_oval_within_box(cx: int, cy: int, rx: int, ry: int, x: int, y: int)
    requires
        in_oval(cx, cy, rx, ry, x, y),
    ensures
        cx - rx <= x <= cx + rx,
        cy - ry <= y <= cy + ry,
{
    let dx = 2 * (x - cx) + 1;
    let dy = 2 * (y - cy) + 1;
    let s = rx * rx;
    let t = ry * ry;
    assert(dx * dx <= 4 * s) by (nonlinear_arith)
        requires
            rx > 0,
            ry > 0,
            s == rx * rx,
            t == ry * ry,
            dx * dx * t + dy * dy * s <= 4 * s * t,
    ;
    assert(dy * dy <= 4 * t) by (nonlinear_arith)
        requires
            rx > 0,
            ry > 0,
            s == rx * rx,
            t == ry * ry,
            dx * dx * t + dy * dy * s <= 4 * s * t,
    ;
    assert(dx * dx <= (2 * rx) * (2 * rx)) by (nonlinear_arith)
        requires
            dx * dx <= 4 * s,
            s == rx * rx,
    ;
    assert(dy * dy <= (2 * ry) * (2 * ry)) by (nonlinear_arith)
        requires
            dy * dy <= 4 * t,
            t == ry * ry,
    ;
    lemma_square_bound(dx, 2 * rx);
    lemma_square_bound(dy, 2 * ry);
}

proof fn lemma_square_le(d: int, m: int)
    requires
        -m <= d <= m,
    ensures
        0 <= d * d <= m * m,
{
    if d >= 0 {
        assert(d * d <= m * m) by (nonlinear_arith)
            requires
                0 <= d <= m,
        ;
    } else {
        assert(d * d <= m * m) by (nonlinear_arith)
            requires
                -m <= d < 0,
        ;
    }
    assert(0 <= d * d) by (nonlinear_arith);
}

proof fn lemma_square_bound(d: int, m: int)
    requires
        m >= 0,
        d * d <= m * m,
    ensures
        -m <= d <= m,
{
    if d > m {
        assert(d * d > m * m) by (nonlinear_arith)
            requires
                d > m,
                m >= 0,
        ;
    }
    if d < -m {
        assert(d * d > m * m) by (nonlinear_arith)
            requires
                d < -m,
                m >= 0,
        ;
    }
}

/// The integer line walk from `(x, y)` towards `(x1, y1)`, with error term
/// `err`, spans `dx = |x1 - x0|` and `dy = -|y1 - y0|` and steps `sx`, `sy`
/// of ±1. Each step doubles the error and compares it with `dy` and `dx`
/// independently to advance along x, along y, or both. The walk ends at
/// `(x1, y1)`; `fuel` only bounds the recursion and never runs out first on
/// a walk started by [`line_points`].
pub open spec fn line_walk(
    x: int,
    y: int,
    err: int,
    x1: int,
    y1: int,
    dx: int,
    dy: int,
    sx: int,
    sy: int,
    fuel: nat,
) -> Seq<(int, int)>
    decreases fuel,
{
    if (x == x1 && y == y1) || fuel == 0 {
        seq![(x, y)]
    } else {
        let e2 = 2 * err;
        let (x_next, err_x) = if e2 >= dy {
            (x + sx, err + dy)
        } else {
            (x, err)
        };
        let (y_next, err_next) = if e2 <= dx {
            (y + sy, err_x + dx)
        } else {
            (y, err_x)
        };
        seq![(x, y)] + line_walk(x_next, y_next, err_next, x1, y1, dx, dy, sx, sy, (fuel - 1) as nat)
    }
}

pub open spec fn abs(v: int) -> int {
    if v >= 0 {
        v
    } else {
        -v
    }
}

/// The pixels of the segment from `(x0, y0)` to `(x1, y1)`, both ends
/// included, in the order the walk visits them.
pub open spec fn line_points(x0: int, y0: int, x1: int, y1: int) -> Seq<(int, int)> {
    let dx = abs(x1 - x0);
    let dy = -abs(y1 - y0);
    let sx = if x0 < x1 {
        1int
    } else {
        -1int
    };
    let sy = if y0 < y1 {
        1int
    } else {
        -1int
    };
    line_walk(x0, y0, dx + dy, x1, y1, dx, dy, sx, sy, (dx - dy) as nat)
}

/// Tests [`in_disc`] for a pixel at offset `(x - cx, y - cy) = (dx, dy)`.
pub fn disc_contains(dx: i64, dy: i64, r: u32) -> (b: bool)
    requires
        -0x4_0000_0000 <= dx <= 0x4_0000_0000,
        -0x4_0000_0000 <= dy <= 0x4_0000_0000,
    ensures
        b == in_disc(0, 0, r as int, dx as int, dy as int),
{
    if r == 0 {
        return dx == 0 && dy == 0;
    }
    let ex: i128 = 2 * dx as i128 + 1;
    let ey: i128 = 2 * dy as i128 + 1;
    proof {
        lemma_square_le(ex as int, 0x8_0000_0001);
    }
    proof {
        lemma_square_le(ey as int, 0x8_0000_0001);
    }
    assert(r as int * r as int <= 0x1_0000_0000_0000_0000) by (nonlinear_arith)
        requires
            r <= 0xffff_ffff,
    ;
    let rr: i128 = r as i128 * r as i128;
    assert(4 * (r as int) * (r as int) == 4 * (rr as int)) by (nonlinear_arith)
        requires
            rr as int == r as int * r as int,
    ;
    ex * ex + ey * ey <= 4 * rr
}

/// Tests [`in_oval`] for a pixel at offset `(x - cx, y - cy) = (dx, dy)`,
/// exactly, although the products involved exceed 128 bits.
pub fn oval_contains(dx: i64, dy: i64, rx: u32, ry: u32) -> (b: bool)
    requires
        -0x4_0000_0000 <= dx <= 0x4_0000_0000,
        -0x4_0000_0000 <= dy <= 0x4_0000_0000,
    ensures
        b == in_oval(0, 0, rx as int, ry as int, dx as int, dy as int),
{
    if rx == 0 || ry == 0 {
        return false;
    }
    let ex: i128 = 2 * dx as i128 + 1;
    let ey: i128 = 2 * dy as i128 + 1;
    proof {
        lemma_square_le(ex as int, 0x8_0000_0001);
    }
    proof {
        lemma_square_le(ey as int, 0x8_0000_0001);
    }
    assert(rx as int * rx as int <= 0xffff_fffe_0000_0001) by (nonlinear_arith)
        requires
            rx <= 0xffff_ffff,
    ;
    assert(ry as int * ry as int <= 0xffff_fffe_0000_0001) by (nonlinear_arith)
        requires
            ry <= 0xffff_ffff,
    ;
    let u: u128 = (ex * ex) as u128;
    let v: u128 = (ey * ey) as u128;
    let s: u128 = rx as u128 * rx as u128;
    let t: u128 = ry as u128 * ry as u128;
    let ghost (ui, vi, si, ti) = (u as int, v as int, s as int, t as int);
    assert(si > 0 && ti > 0) by (nonlinear_arith)
        requires
            si == rx as int * rx as int,
            ti == ry as int * ry as int,
            rx > 0,
            ry > 0,
    ;
    // Each term is non-negative, so one term above the bound decides.
    if u > 4 * s {
        assert(ui * ti + vi * si > 4 * si * ti) by (nonlinear_arith)
            requires
                ui > 4 * si,
                ti > 0,
                si > 0,
                vi >= 0,
        ;
        return false;
    }
    if v > 4 * t {
        assert(ui * ti + vi * si > 4 * si * ti) by (nonlinear_arith)
            requires
                vi > 4 * ti,
                ti > 0,
                si > 0,
                ui >= 0,
        ;
        return false;
    }
    // u·t + v·s ≤ 4·s·t  ⟺  v·s ≤ e·t  with  e = 4·s − u.
    let e: u128 = 4 * s - u;
    let v1 = v / 4;
    let v0 = v % 4;
    let e1 = e / 4;
    let e0 = e % 4;
    assert(v1 * s <= 0xffff_fffe_0000_0001 * 0xffff_fffe_0000_0001) by (nonlinear_arith)
        requires
            v1 <= t,
            t <= 0xffff_fffe_0000_0001,
            s <= 0xffff_fffe_0000_0001,
    ;
    assert(e1 * t <= 0xffff_fffe_0000_0001 * 0xffff_fffe_0000_0001) by (nonlinear_arith)
        requires
            e1 <= s,
            t <= 0xffff_fffe_0000_0001,
            s <= 0xffff_fffe_0000_0001,
    ;
    assert(v0 * s <= 3 * 0xffff_fffe_0000_0001) by (nonlinear_arith)
        requires
            v0 < 4,
            s <= 0xffff_fffe_0000_0001,
    ;
    assert(e0 * t <= 3 * 0xffff_fffe_0000_0001) by (nonlinear_arith)
        requires
            e0 < 4,
            t <= 0xffff_fffe_0000_0001,
    ;
    let a_low = v0 * s;
    let b_low = e0 * t;
    let p = v1 * s + a_low / 4;
    let q = e1 * t + b_low / 4;
    let p0 = a_low % 4;
    let q0 = b_low % 4;
    proof {
        let (pi, qi, p0i, q0i) = (p as int, q as int, p0 as int, q0 as int);
        assert(vi * si == 4 * pi + p0i) by (nonlinear_arith)
            requires
                vi == 4 * (v1 as int) + v0 as int,
                a_low as int == v0 as int * si,
                pi == v1 as int * si + a_low as int / 4,
                p0i == a_low as int % 4,
        ;
        assert(e as int * ti == 4 * qi + q0i) by (nonlinear_arith)
            requires
                e as int == 4 * (e1 as int) + e0 as int,
                b_low as int == e0 as int * ti,
                qi == e1 as int * ti + b_low as int / 4,
                q0i == b_low as int % 4,
        ;
        assert(ui * ti + vi * si <= 4 * si * ti <==> vi * si <= e as int * ti) by (nonlinear_arith)
            requires
                e as int == 4 * si - ui,
        ;
        assert(4 * pi + p0i <= 4 * qi + q0i <==> (pi < qi || (pi == qi && p0i <= q0i)))
            by (nonlinear_arith)
            requires
                0 <= p0i < 4,
                0 <= q0i < 4,
        ;
        assert(ui == ex * ex && vi == ey * ey);
        assert(si == rx as int * rx as int && ti == ry as int * ry as int);
    }
    p < q || (p == q && p0 <= q0)
}

} // verus!
