use rasterizer::canvas::Canvas;
use rasterizer::color::Color;
use rasterizer::drawing::{
    clear, draw_filled_circle_mut, draw_filled_ellipse_mut, draw_filled_rect_mut, draw_line_segment_mut,
};
use rasterizer::rect::Rect;

const BLACK: Color = Color { r: 0, g: 0, b: 0, a: 255 };
const WHITE: Color = Color { r: 255, g: 255, b: 255, a: 255 };

fn covered(c: &Canvas, color: Color) -> Vec<(u32, u32)> {
    let mut out = Vec::new();
    for y in 0..c.height() {
        for x in 0..c.width() {
            if c.get_pixel(x, y) == Some(color) {
                out.push((x, y));
            }
        }
    }
    out
}

fn same_pixels(a: &Canvas, b: &Canvas) -> bool {
    a.to_rgba_bytes() == b.to_rgba_bytes()
}

#[test]
fn new_canvas_is_filled_with_background() {
    let c = Canvas::new(3, 2, WHITE);
    assert_eq!(c.width(), 3);
    assert_eq!(c.height(), 2);
    assert_eq!(covered(&c, WHITE).len(), 6);
    assert_eq!(c.get_pixel(3, 0), None);
    assert_eq!(c.get_pixel(0, 2), None);
}

#[test]
fn clear_overwrites_every_pixel() {
    let mut c = Canvas::new(4, 4, WHITE);
    draw_filled_rect_mut(&mut c, &Rect::new(1, 1, 2, 2), BLACK);
    clear(&mut c, Color { r: 1, g: 2, b: 3, a: 4 });
    assert_eq!(covered(&c, Color { r: 1, g: 2, b: 3, a: 4 }).len(), 16);
}

#[test]
fn rgba_bytes_round_trip() {
    let mut c = Canvas::new(2, 2, WHITE);
    draw_filled_rect_mut(&mut c, &Rect::new(1, 0, 1, 1), Color { r: 10, g: 20, b: 30, a: 255 });
    let bytes = c.to_rgba_bytes();
    assert_eq!(bytes.len(), 16);
    assert_eq!(&bytes[4..8], &[10, 20, 30, 255]);
    let back = Canvas::from_rgba_bytes(2, 2, &bytes).unwrap();
    assert!(same_pixels(&back, &c));
    assert!(Canvas::from_rgba_bytes(2, 2, &bytes[..15].to_vec()).is_none());
}

#[test]
fn transparent_rect_changes_nothing() {
    let mut c = Canvas::new(5, 5, Color { r: 9, g: 8, b: 7, a: 6 });
    let before = c.snapshot();
    draw_filled_rect_mut(&mut c, &Rect::new(-2, -2, 10, 10), Color { r: 255, g: 0, b: 0, a: 0 });
    assert!(same_pixels(&c, &before));
}

#[test]
fn rect_is_clipped_to_canvas() {
    let mut c = Canvas::new(4, 4, WHITE);
    draw_filled_rect_mut(&mut c, &Rect::new(-1, 2, 3, 10), BLACK);
    assert_eq!(covered(&c, BLACK), vec![(0, 2), (1, 2), (0, 3), (1, 3)]);
}

#[test]
fn rect_off_canvas_changes_nothing() {
    let mut c = Canvas::new(4, 4, WHITE);
    draw_filled_rect_mut(&mut c, &Rect::new(4, 0, 3, 3), BLACK);
    draw_filled_rect_mut(&mut c, &Rect::new(i32::MIN, i32::MIN, 5, 5), BLACK);
    assert!(covered(&c, BLACK).is_empty());
}

#[test]
fn partial_rect_composites() {
    let mut c = Canvas::new(2, 1, BLACK);
    draw_filled_rect_mut(&mut c, &Rect::new(0, 0, 1, 1), Color { r: 255, g: 0, b: 0, a: 128 });
    assert_eq!(c.get_pixel(0, 0), Some(Color { r: 128, g: 0, b: 0, a: 255 }));
    assert_eq!(c.get_pixel(1, 0), Some(BLACK));
}

#[test]
fn horizontal_line_plots_its_pixels() {
    let mut c = Canvas::new(8, 8, WHITE);
    draw_line_segment_mut(&mut c, (0, 0), (5, 0), BLACK);
    assert_eq!(covered(&c, BLACK), vec![(0, 0), (1, 0), (2, 0), (3, 0), (4, 0), (5, 0)]);
}

#[test]
fn vertical_line_plots_its_pixels() {
    let mut c = Canvas::new(8, 8, WHITE);
    draw_line_segment_mut(&mut c, (0, 0), (0, 5), BLACK);
    assert_eq!(covered(&c, BLACK), vec![(0, 0), (0, 1), (0, 2), (0, 3), (0, 4), (0, 5)]);
}

#[test]
fn diagonal_line_plots_four_pixels() {
    let mut c = Canvas::new(8, 8, WHITE);
    draw_line_segment_mut(&mut c, (0, 0), (3, 3), BLACK);
    assert_eq!(covered(&c, BLACK), vec![(0, 0), (1, 1), (2, 2), (3, 3)]);
}

#[test]
fn reversed_shallow_line() {
    let mut c = Canvas::new(8, 8, WHITE);
    draw_line_segment_mut(&mut c, (4, 2), (0, 0), BLACK);
    // The walk visits (4,2) (3,1) (2,1) (1,0) (0,0).
    assert_eq!(covered(&c, BLACK), vec![(0, 0), (1, 0), (2, 1), (3, 1), (4, 2)]);
}

#[test]
fn line_is_clipped_per_point() {
    let mut c = Canvas::new(3, 3, WHITE);
    draw_line_segment_mut(&mut c, (-2, 1), (5, 1), BLACK);
    assert_eq!(covered(&c, BLACK), vec![(0, 1), (1, 1), (2, 1)]);
}

#[test]
fn single_point_line() {
    let mut c = Canvas::new(3, 3, WHITE);
    draw_line_segment_mut(&mut c, (1, 1), (1, 1), BLACK);
    assert_eq!(covered(&c, BLACK), vec![(1, 1)]);
}

#[test]
fn translucent_line_blends_each_pixel_once() {
    let mut c = Canvas::new(4, 1, BLACK);
    draw_line_segment_mut(&mut c, (0, 0), (3, 0), Color { r: 255, g: 0, b: 0, a: 128 });
    assert_eq!(covered(&c, Color { r: 128, g: 0, b: 0, a: 255 }).len(), 4);
}

#[test]
fn zero_radius_circle_plots_its_center() {
    let mut c = Canvas::new(5, 5, WHITE);
    draw_filled_circle_mut(&mut c, (2, 3), 0, BLACK);
    assert_eq!(covered(&c, BLACK), vec![(2, 3)]);
    assert_eq!(covered(&c, WHITE).len(), 24);
}

#[test]
fn zero_radius_translucent_circle_blends_its_center() {
    let mut c = Canvas::new(3, 3, BLACK);
    draw_filled_circle_mut(&mut c, (1, 1), 0, Color { r: 255, g: 0, b: 0, a: 128 });
    assert_eq!(c.get_pixel(1, 1), Some(Color { r: 128, g: 0, b: 0, a: 255 }));
    assert_eq!(covered(&c, BLACK).len(), 8);
}

#[test]
fn zero_radius_transparent_or_offcanvas_circle_changes_nothing() {
    let mut c = Canvas::new(5, 5, WHITE);
    let before = c.snapshot();
    draw_filled_circle_mut(&mut c, (2, 2), 0, Color { r: 0, g: 0, b: 0, a: 0 });
    draw_filled_circle_mut(&mut c, (5, 2), 0, BLACK);
    draw_filled_circle_mut(&mut c, (-1, -1), 0, BLACK);
    assert!(same_pixels(&c, &before));
}

#[test]
fn circle_of_radius_two() {
    let mut c = Canvas::new(10, 10, WHITE);
    draw_filled_circle_mut(&mut c, (5, 5), 2, BLACK);
    let pts = covered(&c, BLACK);
    // Offsets -2..=1 on each axis, without the four corners.
    assert_eq!(pts.len(), 12);
    assert!(pts.contains(&(3, 4)));
    assert!(!pts.contains(&(3, 3)));
    assert!(!pts.contains(&(7, 5)));
}

#[test]
fn circle_is_clipped() {
    let mut c = Canvas::new(2, 2, WHITE);
    draw_filled_circle_mut(&mut c, (0, 0), 2, BLACK);
    // Pixel (1, 1) has its center at (1.5, 1.5), farther than 2 from (0, 0).
    assert_eq!(covered(&c, BLACK), vec![(0, 0), (1, 0), (0, 1)]);
}

#[test]
fn huge_circle_covers_canvas() {
    let mut c = Canvas::new(3, 3, WHITE);
    draw_filled_circle_mut(&mut c, (i32::MIN, i32::MAX), u32::MAX, BLACK);
    assert_eq!(covered(&c, BLACK).len(), 9);
}

#[test]
fn ellipse_three_by_one() {
    let mut c = Canvas::new(10, 10, WHITE);
    draw_filled_ellipse_mut(&mut c, (5, 5), (3, 1), BLACK);
    let mut expected = Vec::new();
    for y in 4..=5 {
        for x in 2..=7 {
            expected.push((x, y));
        }
    }
    assert_eq!(covered(&c, BLACK), expected);
}

#[test]
fn ellipse_with_zero_radius_changes_nothing() {
    let mut c = Canvas::new(5, 5, WHITE);
    draw_filled_ellipse_mut(&mut c, (2, 2), (0, 3), BLACK);
    draw_filled_ellipse_mut(&mut c, (2, 2), (0, 0), BLACK);
    assert!(covered(&c, BLACK).is_empty());
}

#[test]
fn huge_ellipse_covers_canvas() {
    let mut c = Canvas::new(3, 3, WHITE);
    draw_filled_ellipse_mut(&mut c, (1, 1), (u32::MAX, u32::MAX), BLACK);
    assert_eq!(covered(&c, BLACK).len(), 9);
}

#[test]
fn equal_radii_ellipse_matches_circle() {
    let mut a = Canvas::new(12, 12, WHITE);
    let mut b = Canvas::new(12, 12, WHITE);
    draw_filled_circle_mut(&mut a, (6, 5), 4, BLACK);
    draw_filled_ellipse_mut(&mut b, (6, 5), (4, 4), BLACK);
    assert!(same_pixels(&a, &b));
}
