use vstd::prelude::*;
use crate::canvas::{Canvas, CanvasView, canvas_of_bytes, rgba_bytes};
use crate::color::composite;
use crate::rect::Rect;
use crate::resample::{triangle_resized, resize_triangle};

verus! {

/// `after` is `before` with each pixel of `src`, its top-left corner placed
/// at `(left, top)`, composited over the pixel it lands on.
pub open spec fn placed(before: CanvasView, after: CanvasView, left: int, top: int, src: CanvasView) -> bool {
    &&& after.same_size(before)
    &&& after.wf()
    &&& forall|x: int, y: int|
        after.in_bounds(x, y) ==> #[trigger] after.pixel(x, y) == if src.in_bounds(x - left, y - top) {
            composite(before.pixel(x, y), src.pixel(x - left, y - top))
        } else {
            before.pixel(x, y)
        }
}

/// The source as it is drawn into `rect`: unchanged when it already has the
/// rectangle's size, otherwise resampled to that size with a triangle
/// filter.
pub open spec fn fitted_source(src: CanvasView, rect: Rect) -> CanvasView {
    if src.width == rect.width && src.height == rect.height {
        src
    } else {
        canvas_of_bytes(
            rect.width as nat,
            rect.height as nat,
            triangle_resized(rgba_bytes(src.pixels), src.width, src.height, rect.width as nat, rect.height as nat),
        )
    }
}

/// Whether drawing `src` into `rect` on `target` has anything to draw: the
/// rectangle meets the canvas and the source has pixels.
pub open spec fn blit_visible(target: CanvasView, rect: Rect, src: CanvasView) -> bool {
    &&& !Rect { left: 0, top: 0, width: target.width as u32, height: target.height as u32 }.intersect_spec(
        rect,
    ).is_empty_spec()
    &&& src.width > 0
    &&& src.height > 0
}

/// Whether the buffers of a resampling fit in memory, when one is needed:
/// drawing `src` into `rect` on `target` resamples only when something is
/// visible and the sizes differ, and then allocates a `src.width ×
/// rect.height` intermediate image and the `rect.width × rect.height` result.
pub open spec fn resample_fits(target: CanvasView, rect: Rect, src: CanvasView) -> bool {
    blit_visible(target, rect, src) && !(src.width == rect.width && src.height == rect.height) ==> {
        &&& rect.width * rect.height * 4 <= usize::MAX
        &&& src.width * rect.height * 4 <= usize::MAX
    }
}

/// Composites `other` over the canvas with its top-left corner at
/// `top_left`; the parts that fall off the canvas are skipped.
pub fn draw_image_at(image: &mut Canvas, top_left: (i32, i32), other: &Canvas)
    ensures
        placed(old(image)@, final(image)@, top_left.0 as int, top_left.1 as int, other@),
{
    let width = image.width();
    let height = image.height();
    let other_width = other.width();
    let other_height = other.height();
    let ghost before = image@;
    let (left, top) = top_left;
    let bounds = Rect::new(0, 0, width, height);
    let other_bounds = Rect::new(left, top, other_width, other_height);
    let clip = bounds.intersect(&other_bounds);
    if clip.is_empty() {
        proof {
            assert forall|x: int, y: int| image@.in_bounds(x, y) implies !other@.in_bounds(x - left, y - top) by {
                if other@.in_bounds(x - left, y - top) {
                    assert(clip.contains(x, y));
                }
            }
        }
        return;
    }
    let x_start = clip.left as u32;
    let x_end = x_start + clip.width;
    let y_start = clip.top as u32;
    let y_end = y_start + clip.height;
    let mut y = y_start;
    while y < y_end
        invariant
            image@.same_size(before),
            image@.wf(),
            width == before.width,
            height == before.height,
            other_width == other@.width,
            other_height == other@.height,
            y_start <= y <= y_end,
            x_start <= x_end,
            forall|px: int, py: int| #[trigger] clip.contains(px, py) <==> (x_start <= px < x_end && y_start <= py < y_end),
            forall|px: int, py: int| #[trigger] clip.contains(px, py) <==> (bounds.contains(px, py) && other_bounds.contains(px, py)),
            bounds == (Rect { left: 0, top: 0, width, height }),
            other_bounds == (Rect { left, top, width: other_width, height: other_height }),
            forall|px: int, py: int|
                image@.in_bounds(px, py) ==> #[trigger] image@.pixel(px, py) == if clip.contains(px, py) && py < y {
                    composite(before.pixel(px, py), other@.pixel(px - left, py - top))
                } else {
                    before.pixel(px, py)
                },
        decreases y_end - y,
    {
        let mut x = x_start;
        while x < x_end
            invariant
                image@.same_size(before),
                image@.wf(),
                width == before.width,
                height == before.height,
                other_width == other@.width,
                other_height == other@.height,
                y_start <= y < y_end,
                x_start <= x <= x_end,
                forall|px: int, py: int| #[trigger] clip.contains(px, py) <==> (x_start <= px < x_end && y_start <= py < y_end),
                forall|px: int, py: int| #[trigger] clip.contains(px, py) <==> (bounds.contains(px, py) && other_bounds.contains(px, py)),
                bounds == (Rect { left: 0, top: 0, width, height }),
                other_bounds == (Rect { left, top, width: other_width, height: other_height }),
                forall|px: int, py: int|
                    image@.in_bounds(px, py) ==> #[trigger] image@.pixel(px, py) == if clip.contains(px, py) && (py < y || (py == y && px < x)) {
                        composite(before.pixel(px, py), other@.pixel(px - left, py - top))
                    } else {
                        before.pixel(px, py)
                    },
            decreases x_end - x,
        {
            proof {
                assert(clip.contains(x as int, y as int));
            }
            let front = other.pixel_unchecked((x as i64 - left as i64) as u32, (y as i64 - top as i64) as u32);
            image.blend_pixel_unchecked(x, y, front);
            x += 1;
        }
        y += 1;
    }
    proof {
        assert forall|px: int, py: int| image@.in_bounds(px, py) implies #[trigger] image@.pixel(px, py)
            == if other@.in_bounds(px - left, py - top) {
            composite(before.pixel(px, py), other@.pixel(px - left, py - top))
        } else {
            before.pixel(px, py)
        } by {
            assert(clip.contains(px, py) <==> other@.in_bounds(px - left, py - top));
        }
    }
}

/// Composites `other` into `rect` on the canvas. When `rect` differs from
/// the source's size the source is first resampled to it (triangle filter).
/// Nothing happens when `rect` misses the canvas or the source is empty.
pub fn draw_image_mut(image: &mut Canvas, rect: &Rect, other: &Canvas)
    requires
        resample_fits(old(image)@, *rect, other@),
    ensures
        blit_visible(old(image)@, *rect, other@) ==> placed(
            old(image)@,
            final(image)@,
            rect.left as int,
            rect.top as int,
            fitted_source(other@, *rect),
        ),
        !blit_visible(old(image)@, *rect, other@) ==> final(image)@ == old(image)@,
{
    let width = image.width();
    let height = image.height();
    let other_width = other.width();
    let other_height = other.height();
    let bounds = Rect::new(0, 0, width, height);
    let clip = bounds.intersect(rect);
    if clip.is_empty() || other_width == 0 || other_height == 0 {
        return;
    }
    if rect.width != other_width || rect.height != other_height {
        let bytes = resize_triangle(other.to_rgba_bytes(), other_width, other_height, rect.width, rect.height);
        match Canvas::from_rgba_bytes(rect.width, rect.height, &bytes) {
            Some(fitted) => draw_image_at(image, (rect.left, rect.top), &fitted),
            None => {
                proof {
                    assert(false);
                }
            },
        }
    } else {
        draw_image_at(image, (rect.left, rect.top), other);
    }
}

/// Draws a canvas into itself: the source is copied before any pixel is
/// written, so every pixel read is one from before the call.
pub fn draw_image_self(image: &mut Canvas, rect: &Rect)
    requires
        resample_fits(old(image)@, *rect, old(image)@),
    ensures
        blit_visible(old(image)@, *rect, old(image)@) ==> placed(
            old(image)@,
            final(image)@,
            rect.left as int,
            rect.top as int,
            fitted_source(old(image)@, *rect),
        ),
        !blit_visible(old(image)@, *rect, old(image)@) ==> final(image)@ == old(image)@,
{
    let source = image.snapshot();
    draw_image_mut(image, rect, &source);
}

} // verus!
