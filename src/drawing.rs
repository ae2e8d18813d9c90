use vstd::prelude::*;
use crate::canvas::{Canvas, CanvasView};
use crate::color::{Color, composite};
use crate::rect::Rect;
use crate::shapes::{line_walk, line_points, in_disc, in_oval, disc_contains, oval_contains, lemma_disc_within_box, lemma_oval_within_box};

verus! {

/// `after` is `before` with `fill` composited over exactly the pixels that
/// `mask` selects.
pub open spec fn painted(
    before: CanvasView,
    after: CanvasView,
    mask: spec_fn(int, int) -> bool,
    fill: Color,
) -> bool {
    &&& after.same_size(before)
    &&& after.wf()
    &&& forall|x: int, y: int|
        after.in_bounds(x, y) ==> #[trigger] after.pixel(x, y) == if mask(x, y) {
            composite(before.pixel(x, y), fill)
        } else {
            before.pixel(x, y)
        }
}

/// The pixels that a filled primitive may cover, before clipping.
enum Region {
    Everything,
    Disc { cx: i32, cy: i32, r: u32 },
    Oval { cx: i32, cy: i32, rx: u32, ry: u32 },
}

spec fn region_contains(region: Region, x: int, y: int) -> bool {
    match region {
        Region::Everything => true,
        Region::Disc { cx, cy, r } => in_disc(cx as int, cy as int, r as int, x, y),
        Region::Oval { cx, cy, rx, ry } => in_oval(cx as int, cy as int, rx as int, ry as int, x, y),
    }
}

fn region_test(region: &Region, x: u32, y: u32) -> (b: bool)
    ensures
        b == region_contains(*region, x as int, y as int),
{
    match region {
        Region::Everything => true,
        Region::Disc { cx, cy, r } => disc_contains(x as i64 - *cx as i64, y as i64 - *cy as i64, *r),
        Region::Oval { cx, cy, rx, ry } => oval_contains(
            x as i64 - *cx as i64,
            y as i64 - *cy as i64,
            *rx,
            *ry,
        ),
    }
}

/// Whether `clip` is empty or lies inside a canvas of the given size.
spec fn clip_fits(clip: Rect, width: nat, height: nat) -> bool {
    clip.is_empty_spec() || (clip.left >= 0 && clip.top >= 0 && clip.left + clip.width <= width
        && clip.top + clip.height <= height)
}

/// The bounds `[min_x, max_x] × [min_y, max_y]` intersected with the bounds
/// of a `width × height` canvas.
fn clip_to_canvas(width: u32, height: u32, min_x: i64, min_y: i64, max_x: i64, max_y: i64) -> (r:
    Rect)
    requires
        min_x <= i32::MAX,
        min_y <= i32::MAX,
    ensures
        clip_fits(r, width as nat, height as nat),
        forall|x: int, y: int|
            #[trigger] r.contains(x, y) <==> (0 <= x < width && 0 <= y < height && min_x <= x
                <= max_x && min_y <= y <= max_y),
{
    let left: i64 = if min_x > 0 { min_x } else { 0 };
    let top: i64 = if min_y > 0 { min_y } else { 0 };
    let right: i64 = if max_x < width as i64 - 1 { max_x } else { width as i64 - 1 };
    let bottom: i64 = if max_y < height as i64 - 1 { max_y } else { height as i64 - 1 };
    let w: u32 = if right >= left { (right - left + 1) as u32 } else { 0 };
    let h: u32 = if bottom >= top { (bottom - top + 1) as u32 } else { 0 };
    Rect { left: left as i32, top: top as i32, width: w, height: h }
}

/// Composites `fill` over every pixel of `clip` that `region` contains,
/// row by row.
fn fill_region(image: &mut Canvas, clip: Rect, region: Region, fill: Color)
    requires
        clip_fits(clip, old(image)@.width, old(image)@.height),
    ensures
        painted(
            old(image)@,
            final(image)@,
            |x: int, y: int| clip.contains(x, y) && region_contains(region, x, y),
            fill,
        ),
{
    let ghost before = image@;
    // Asking for the size also brings in the canvas's well-formedness.
    let _ = image.width();
    let _ = image.height();
    if clip.width == 0 || clip.height == 0 {
        return;
    }
    let x_start = clip.left as u32;
    let x_end = x_start + clip.width;
    let y_start = clip.top as u32;
    let y_end = y_start + clip.height;
    let mut y = y_start;
    while y < y_end
        invariant
            image@.same_size(before),
            image@.wf(),
            y_start <= y <= y_end,
            y_start == clip.top,
            y_end == clip.top + clip.height,
            x_start == clip.left,
            x_end == clip.left + clip.width,
            x_end <= before.width,
            y_end <= before.height,
            forall|px: int, py: int|
                image@.in_bounds(px, py) ==> #[trigger] image@.pixel(px, py) == if clip.contains(
                    px,
                    py,
                ) && region_contains(region, px, py) && py < y {
                    composite(before.pixel(px, py), fill)
                } else {
                    before.pixel(px, py)
                },
        decreases y_end - y,
    {
        let mut x = x_start;
        while x < x_end
            invariant
                image@.same_size(before),
                image@.wf(),
                y_start <= y < y_end,
                x_start <= x <= x_end,
                y_start == clip.top,
                y_end == clip.top + clip.height,
                x_start == clip.left,
                x_end == clip.left + clip.width,
                x_end <= before.width,
                y_end <= before.height,
                forall|px: int, py: int|
                    image@.in_bounds(px, py) ==> #[trigger] image@.pixel(px, py) == if clip.contains(
                        px,
                        py,
                    ) && region_contains(region, px, py) && (py < y || (py == y && px < x)) {
                        composite(before.pixel(px, py), fill)
                    } else {
                        before.pixel(px, py)
                    },
            decreases x_end - x,
        {
            if region_test(&region, x, y) {
                image.blend_pixel_unchecked(x, y, fill);
            }
            x += 1;
        }
        y += 1;
    }
}

/// Sets every pixel of the canvas to `color`.
pub fn clear(image: &mut Canvas, color: Color)
    ensures
        final(image)@.same_size(old(image)@),
        final(image)@.wf(),
        forall|x: int, y: int| final(image)@.in_bounds(x, y) ==> #[trigger] final(image)@.pixel(x, y) == color,
{
    let width = image.width();
    let height = image.height();
    *image = Canvas::new(width, height, color);
}

/// Composites `fill` over the part of `rect` that lies on the canvas. A
/// transparent fill touches nothing.
pub fn draw_filled_rect_mut(image: &mut Canvas, rect: &Rect, fill: Color)
    ensures
        painted(old(image)@, final(image)@, |x: int, y: int| rect.contains(x, y), fill),
        fill.a == 0 ==> final(image)@ == old(image)@,
{
    let width = image.width();
    let height = image.height();
    if fill.a == 0 {
        return;
    }
    let bounds = Rect::new(0, 0, width, height);
    let clip = bounds.intersect(rect);
    if clip.is_empty() {
        return;
    }
    fill_region(image, clip, Region::Everything, fill);
}

/// How far the walk from `(x0, y0)` with steps `sx`, `sy` has come when it
/// reaches `p`: the number of steps along x plus those along y.
spec fn walk_progress(p: (int, int), x0: int, y0: int, sx: int, sy: int) -> int {
    (if sx == 1 {
        p.0 - x0
    } else {
        x0 - p.0
    }) + (if sy == 1 {
        p.1 - y0
    } else {
        y0 - p.1
    })
}

/// Composites `fill` over each pixel of the segment from `start` to `end`
/// (both included) that lies on the canvas.
pub fn draw_line_segment_mut(image: &mut Canvas, start: (i32, i32), end: (i32, i32), fill: Color)
    ensures
        painted(
            old(image)@,
            final(image)@,
            |x: int, y: int|
                line_points(start.0 as int, start.1 as int, end.0 as int, end.1 as int).contains(
                    (x, y),
                ),
            fill,
        ),
        fill.a == 0 ==> final(image)@ == old(image)@,
{
    let width = image.width();
    let height = image.height();
    if fill.a == 0 {
        return;
    }
    let x0 = start.0 as i64;
    let y0 = start.1 as i64;
    let x1 = end.0 as i64;
    let y1 = end.1 as i64;
    let dx: i64 = if x1 >= x0 { x1 - x0 } else { x0 - x1 };
    let dy: i64 = if y1 >= y0 { y0 - y1 } else { y1 - y0 };
    let sx: i64 = if x0 < x1 { 1 } else { -1 };
    let sy: i64 = if y0 < y1 { 1 } else { -1 };
    let mut err: i64 = dx + dy;
    let mut x: i64 = x0;
    let mut y: i64 = y0;
    let ghost a = dx as int;
    let ghost b = -dy as int;
    let ghost all = line_points(x0 as int, y0 as int, x1 as int, y1 as int);
    let ghost before = image@;
    let ghost mut done: Seq<(int, int)> = Seq::empty();
    let ghost mut nx: int = 0;
    let ghost mut ny: int = 0;
    let ghost mut f: int = 0;
    let ghost mut fuel: nat = (dx - dy) as nat;
    assert(done + line_walk(x as int, y as int, err as int, x1 as int, y1 as int, dx as int, dy as int, sx as int, sy as int, fuel) =~= all);
    loop
        invariant_except_break
            done + line_walk(x as int, y as int, err as int, x1 as int, y1 as int, dx as int, dy as int, sx as int, sy as int, fuel) == all,
            forall|i: int| 0 <= i < done.len() ==> walk_progress(#[trigger] done[i], x0 as int, y0 as int, sx as int, sy as int) < nx + ny,
            forall|px: int, py: int|
                image@.in_bounds(px, py) ==> #[trigger] image@.pixel(px, py) == if done.contains((px, py)) {
                    composite(before.pixel(px, py), fill)
                } else {
                    before.pixel(px, py)
                },
        invariant
            image@.same_size(before),
            image@.wf(),
            width == before.width,
            height == before.height,
            a == dx,
            b == -dy,
            0 <= a <= 0xffff_ffff,
            0 <= b <= 0xffff_ffff,
            sx == (if x0 < x1 { 1int } else { -1int }),
            sy == (if y0 < y1 { 1int } else { -1int }),
            a == (if x1 >= x0 { x1 - x0 } else { x0 - x1 }),
            b == (if y1 >= y0 { y1 - y0 } else { y0 - y1 }),
            0 <= nx <= a,
            0 <= ny <= b,
            x == (if sx == 1 { x0 + nx } else { x0 - nx }),
            y == (if sy == 1 { y0 + ny } else { y0 - ny }),
            f == a * ny - b * nx,
            err == f + a - b,
            -(if a >= b { a } else { b }) <= 2 * f <= (if a >= b { a } else { b }),
            fuel >= (a - nx) + (b - ny),
        ensures
            image@.same_size(before),
            image@.wf(),
            forall|px: int, py: int|
                image@.in_bounds(px, py) ==> #[trigger] image@.pixel(px, py) == if all.contains((px, py)) {
                    composite(before.pixel(px, py), fill)
                } else {
                    before.pixel(px, py)
                },
        decreases fuel,
    {
        let ghost here = (x as int, y as int);
        proof {
            assert(!done.contains(here)) by {
                if done.contains(here) {
                    let i = choose|i: int| 0 <= i < done.len() && done[i] == here;
                    assert(walk_progress(done[i], x0 as int, y0 as int, sx as int, sy as int) < nx + ny);
                }
            }
        }
        if 0 <= x && x < width as i64 && 0 <= y && y < height as i64 {
            image.blend_pixel_unchecked(x as u32, y as u32, fill);
        }
        proof {
            assert forall|px: int, py: int| image@.in_bounds(px, py) implies #[trigger] image@.pixel(px, py)
                == if done.push(here).contains((px, py)) {
                composite(before.pixel(px, py), fill)
            } else {
                before.pixel(px, py)
            } by {
                assert(done.push(here).contains((px, py)) <==> done.contains((px, py)) || here == (px, py)) by {
                    if done.push(here).contains((px, py)) {
                        let i = choose|i: int| 0 <= i < done.push(here).len() && done.push(here)[i] == (px, py);
                        if i < done.len() {
                            assert(done[i] == (px, py));
                        }
                    }
                    if done.contains((px, py)) {
                        let i = choose|i: int| 0 <= i < done.len() && done[i] == (px, py);
                        assert(done.push(here)[i] == (px, py));
                    }
                    if here == (px, py) {
                        assert(done.push(here)[done.len() as int] == (px, py));
                    }
                }
            }
        }
        if x == x1 && y == y1 {
            proof {
                assert(done.push(here) =~= all);
            }
            break;
        }
        let e2 = 2 * err;
        let ghost old_f = f;
        let ghost old_nx = nx;
        let ghost old_ny = ny;
        proof {
            assert(fuel > 0);
            assert(nx < a || ny < b);
            if nx == a {
                assert(a * ny - b * a <= -a) by (nonlinear_arith)
                    requires
                        0 <= ny < b,
                        a >= 0,
                ;
                assert(e2 < dy);
            }
            if ny == b {
                assert(a * b - b * nx >= b) by (nonlinear_arith)
                    requires
                        0 <= nx < a,
                        b >= 0,
                ;
                assert(e2 > dx);
            }
            assert(line_walk(x as int, y as int, err as int, x1 as int, y1 as int, dx as int, dy as int, sx as int, sy as int, fuel)
                == seq![here] + line_walk(
                    if e2 >= dy { x + sx } else { x as int },
                    if e2 <= dx { y + sy } else { y as int },
                    (if e2 >= dy { err + dy } else { err as int }) + (if e2 <= dx { dx as int } else { 0 }),
                    x1 as int, y1 as int, dx as int, dy as int, sx as int, sy as int, (fuel - 1) as nat));
        }
        if e2 >= dy {
            err += dy;
            x += sx;
            proof {
                nx = nx + 1;
                f = f - b;
                assert(f == a * ny - b * nx) by (nonlinear_arith)
                    requires
                        f == old_f - b,
                        old_f == a * ny - b * old_nx,
                        nx == old_nx + 1,
                ;
            }
        }
        if e2 <= dx {
            err += dx;
            y += sy;
            proof {
                let g = f;
                ny = ny + 1;
                f = f + a;
                assert(f == a * ny - b * nx) by (nonlinear_arith)
                    requires
                        f == g + a,
                        g == a * old_ny - b * nx,
                        ny == old_ny + 1,
                ;
            }
        }
        proof {
            assert forall|i: int| 0 <= i < done.push(here).len() implies walk_progress(#[trigger] done.push(here)[i], x0 as int, y0 as int, sx as int, sy as int) < nx + ny by {
                if i < done.len() {
                    assert(done.push(here)[i] == done[i]);
                }
            }
            done = done.push(here);
            fuel = (fuel - 1) as nat;
            assert(done + line_walk(x as int, y as int, err as int, x1 as int, y1 as int, dx as int, dy as int, sx as int, sy as int, fuel) =~= all);
        }
    }
}

/// Composites `fill` over every pixel whose center lies in the disc of
/// radius `radius` around `center`; a zero radius covers the center pixel.
pub fn draw_filled_circle_mut(image: &mut Canvas, center: (i32, i32), radius: u32, fill: Color)
    ensures
        painted(
            old(image)@,
            final(image)@,
            |x: int, y: int| in_disc(center.0 as int, center.1 as int, radius as int, x, y),
            fill,
        ),
        fill.a == 0 ==> final(image)@ == old(image)@,
{
    let width = image.width();
    let height = image.height();
    if fill.a == 0 {
        return;
    }
    let (cx, cy) = center;
    let r = radius as i64;
    let clip = clip_to_canvas(width, height, cx as i64 - r, cy as i64 - r, cx as i64 + r, cy as i64 + r);
    proof {
        assert forall|x: int, y: int| in_disc(cx as int, cy as int, r as int, x, y) && 0 <= x < width && 0 <= y < height
            implies #[trigger] clip.contains(x, y) by {
            lemma_disc_within_box(cx as int, cy as int, r as int, x, y);
        }
    }
    if clip.is_empty() {
        proof {
            assert forall|x: int, y: int| 0 <= x < width && 0 <= y < height implies !in_disc(cx as int, cy as int, r as int, x, y) by {
                if in_disc(cx as int, cy as int, r as int, x, y) {
                    assert(clip.contains(x, y));
                }
            }
        }
        return;
    }
    fill_region(image, clip, Region::Disc { cx, cy, r: radius }, fill);
}

/// A circle of radius zero composites `fill` over its center pixel alone
/// (when that pixel is on the canvas) and leaves every other pixel as it was.
pub proof fn lemma_zero_radius_circle_plots_center(
    before: CanvasView,
    after: CanvasView,
    center: (i32, i32),
    fill: Color,
)
    requires
        painted(before, after, |x: int, y: int| in_disc(center.0 as int, center.1 as int, 0, x, y), fill),
    ensures
        after.same_size(before),
        forall|x: int, y: int|
            after.in_bounds(x, y) ==> #[trigger] after.pixel(x, y) == if x == center.0 && y == center.1 {
                composite(before.pixel(x, y), fill)
            } else {
                before.pixel(x, y)
            },
{
    assert forall|x: int, y: int| after.in_bounds(x, y) implies #[trigger] after.pixel(x, y) == if x
        == center.0 && y == center.1 {
        composite(before.pixel(x, y), fill)
    } else {
        before.pixel(x, y)
    } by {
        assert(in_disc(center.0 as int, center.1 as int, 0, x, y) <==> (x == center.0 && y == center.1));
    }
}

/// Composites `fill` over every pixel whose center lies in the ellipse with
/// radii `radius` around `center`.
pub fn draw_filled_ellipse_mut(image: &mut Canvas, center: (i32, i32), radius: (u32, u32), fill: Color)
    ensures
        painted(
            old(image)@,
            final(image)@,
            |x: int, y: int|
                in_oval(center.0 as int, center.1 as int, radius.0 as int, radius.1 as int, x, y),
            fill,
        ),
        fill.a == 0 ==> final(image)@ == old(image)@,
{
    let width = image.width();
    let height = image.height();
    if fill.a == 0 {
        return;
    }
    let (cx, cy) = center;
    let (rx, ry) = radius;
    let clip = clip_to_canvas(
        width,
        height,
        cx as i64 - rx as i64,
        cy as i64 - ry as i64,
        cx as i64 + rx as i64,
        cy as i64 + ry as i64,
    );
    proof {
        assert forall|x: int, y: int|
            in_oval(cx as int, cy as int, rx as int, ry as int, x, y) && 0 <= x < width && 0 <= y < height
            implies #[trigger] clip.contains(x, y) by {
            lemma_oval_within_box(cx as int, cy as int, rx as int, ry as int, x, y);
        }
    }
    if clip.is_empty() {
        proof {
            assert forall|x: int, y: int| 0 <= x < width && 0 <= y < height implies !in_oval(cx as int, cy as int, rx as int, ry as int, x, y) by {
                if in_oval(cx as int, cy as int, rx as int, ry as int, x, y) {
                    assert(clip.contains(x, y));
                }
            }
        }
        return;
    }
    fill_region(image, clip, Region::Oval { cx, cy, rx, ry }, fill);
}

} // verus!
