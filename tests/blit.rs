use rasterizer::blit::{draw_image_at, draw_image_mut, draw_image_self};
use rasterizer::canvas::Canvas;
use rasterizer::color::Color;
use rasterizer::rect::Rect;

const WHITE: Color = Color { r: 255, g: 255, b: 255, a: 255 };
const RED: Color = Color { r: 255, g: 0, b: 0, a: 255 };

fn strip(colors: &[Color]) -> Canvas {
    let mut bytes = Vec::new();
    for c in colors {
        bytes.extend_from_slice(&[c.r, c.g, c.b, c.a]);
    }
    Canvas::from_rgba_bytes(colors.len() as u32, 1, &bytes).unwrap()
}

fn shade(v: u8) -> Color {
    Color { r: v, g: v, b: v, a: 255 }
}

#[test]
fn image_at_offset_is_clipped() {
    let mut target = Canvas::new(3, 1, WHITE);
    let source = strip(&[shade(1), shade(2), shade(3)]);
    draw_image_at(&mut target, (-1, 0), &source);
    assert_eq!(target.get_pixel(0, 0), Some(shade(2)));
    assert_eq!(target.get_pixel(1, 0), Some(shade(3)));
    assert_eq!(target.get_pixel(2, 0), Some(WHITE));
}

#[test]
fn image_with_own_size_is_copied() {
    let mut target = Canvas::new(4, 1, WHITE);
    let source = strip(&[shade(1), shade(2)]);
    draw_image_mut(&mut target, &Rect::new(2, 0, 2, 1), &source);
    assert_eq!(target.to_rgba_bytes(), strip(&[WHITE, WHITE, shade(1), shade(2)]).to_rgba_bytes());
}

#[test]
fn translucent_image_is_composited() {
    let mut target = Canvas::new(1, 1, Color { r: 0, g: 0, b: 0, a: 255 });
    let source = strip(&[Color { r: 255, g: 0, b: 0, a: 128 }]);
    draw_image_mut(&mut target, &Rect::new(0, 0, 1, 1), &source);
    assert_eq!(target.get_pixel(0, 0), Some(Color { r: 128, g: 0, b: 0, a: 255 }));
}

#[test]
fn image_is_resampled_to_rect() {
    let mut target = Canvas::new(4, 4, WHITE);
    let source = Canvas::new(1, 1, RED);
    draw_image_mut(&mut target, &Rect::new(1, 1, 3, 2), &source);
    for y in 0..4 {
        for x in 0..4 {
            let inside = (1..4).contains(&x) && (1..3).contains(&y);
            assert_eq!(target.get_pixel(x, y), Some(if inside { RED } else { WHITE }));
        }
    }
}

#[test]
fn image_outside_canvas_changes_nothing() {
    let mut target = Canvas::new(2, 2, WHITE);
    let source = Canvas::new(1, 1, RED);
    draw_image_mut(&mut target, &Rect::new(5, 5, 3, 3), &source);
    draw_image_mut(&mut target, &Rect::new(0, 0, 0, 2), &source);
    assert_eq!(target.to_rgba_bytes(), Canvas::new(2, 2, WHITE).to_rgba_bytes());
}

#[test]
fn empty_source_changes_nothing() {
    let mut target = Canvas::new(2, 2, WHITE);
    let source = Canvas::new(0, 0, RED);
    draw_image_mut(&mut target, &Rect::new(0, 0, 2, 2), &source);
    assert_eq!(target.to_rgba_bytes(), Canvas::new(2, 2, WHITE).to_rgba_bytes());
}

#[test]
fn drawing_onto_itself_reads_the_snapshot() {
    let colors = [shade(10), shade(20), shade(30), shade(40)];
    let mut canvas = strip(&colors);
    let mut expected = strip(&colors);
    let snapshot = expected.snapshot();
    draw_image_mut(&mut expected, &Rect::new(1, 0, 4, 1), &snapshot);
    draw_image_self(&mut canvas, &Rect::new(1, 0, 4, 1));
    assert_eq!(canvas.to_rgba_bytes(), expected.to_rgba_bytes());
    // A copy that read already written pixels would repeat the first shade.
    assert_eq!(canvas.to_rgba_bytes(), strip(&[shade(10), shade(10), shade(20), shade(30)]).to_rgba_bytes());
}
