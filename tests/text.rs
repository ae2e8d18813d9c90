use rasterizer::canvas::Canvas;
use rasterizer::color::Color;
use rasterizer::text::{draw_text_mut, measure_line, GlyphMask};

const WHITE: Color = Color { r: 255, g: 255, b: 255, a: 255 };
const BLACK: Color = Color { r: 0, g: 0, b: 0, a: 255 };

#[test]
fn glyph_mask_needs_one_value_per_pixel() {
    assert!(GlyphMask::new(0, 0, 2, 2, vec![0; 3]).is_none());
    let g = GlyphMask::new(3, -4, 2, 2, vec![0; 4]).unwrap();
    assert_eq!((g.left(), g.top(), g.width(), g.height()), (3, -4, 2, 2));
}

#[test]
fn measuring_nothing_gives_zero() {
    assert_eq!(measure_line(&Vec::new(), 17), (0, 0));
}

#[test]
fn measure_spans_first_to_last_glyph() {
    let glyphs = vec![
        GlyphMask::new(1, 2, 4, 1, vec![255; 4]).unwrap(),
        GlyphMask::new(6, 0, 3, 1, vec![255; 3]).unwrap(),
    ];
    assert_eq!(measure_line(&glyphs, 12), (8, 12));
}

#[test]
fn drawing_nothing_changes_nothing() {
    let mut c = Canvas::new(4, 4, WHITE);
    draw_text_mut(&mut c, (1, 1), &Vec::new(), BLACK);
    assert_eq!(c.to_rgba_bytes(), Canvas::new(4, 4, WHITE).to_rgba_bytes());
}

#[test]
fn glyph_is_placed_from_first_left_edge() {
    let mut c = Canvas::new(6, 6, WHITE);
    // First glyph's box starts at x = 2 on its line; the run is moved so that
    // edge lands on x = 0, and the line's top on y = 1.
    let glyphs = vec![GlyphMask::new(2, 1, 2, 1, vec![255, 0]).unwrap()];
    draw_text_mut(&mut c, (0, 1), &glyphs, BLACK);
    assert_eq!(c.get_pixel(0, 2), Some(BLACK));
    assert_eq!(c.get_pixel(1, 2), Some(WHITE));
    assert_eq!(c.get_pixel(2, 2), Some(WHITE));
}

#[test]
fn coverage_scales_alpha() {
    let mut c = Canvas::new(1, 1, BLACK);
    let glyphs = vec![GlyphMask::new(0, 0, 1, 1, vec![128]).unwrap()];
    draw_text_mut(&mut c, (0, 0), &glyphs, Color { r: 255, g: 0, b: 0, a: 255 });
    // alpha = 128 * 255 / 255 = 128, composited over opaque black.
    assert_eq!(c.get_pixel(0, 0), Some(Color { r: 128, g: 0, b: 0, a: 255 }));
}

#[test]
fn transparent_text_changes_nothing() {
    let mut c = Canvas::new(2, 2, WHITE);
    let glyphs = vec![GlyphMask::new(0, 0, 2, 2, vec![255; 4]).unwrap()];
    draw_text_mut(&mut c, (0, 0), &glyphs, Color { r: 0, g: 0, b: 0, a: 0 });
    assert_eq!(c.to_rgba_bytes(), Canvas::new(2, 2, WHITE).to_rgba_bytes());
}
