use rasterizer::color::{blend_color, Color};

fn rgba(r: u8, g: u8, b: u8, a: u8) -> Color {
    Color { r, g, b, a }
}

#[test]
fn transparent_front_keeps_back() {
    for back in [rgba(1, 2, 3, 4), rgba(200, 100, 50, 0), rgba(9, 9, 9, 255)] {
        assert_eq!(blend_color(back, rgba(77, 88, 99, 0)), back);
    }
}

#[test]
fn opaque_front_replaces_back() {
    for back in [rgba(1, 2, 3, 4), rgba(200, 100, 50, 0), rgba(9, 9, 9, 255)] {
        assert_eq!(blend_color(back, rgba(77, 88, 99, 255)), rgba(77, 88, 99, 255));
    }
}

#[test]
fn half_red_over_opaque_black() {
    // a = 1 - (1 - 128/255)(1 - 1) = 1; r = 255 * 128/255 = 128.
    assert_eq!(blend_color(rgba(0, 0, 0, 255), rgba(255, 0, 0, 128)), rgba(128, 0, 0, 255));
}

#[test]
fn partial_over_transparent_keeps_front_color() {
    // With a transparent back the result is the front color at its own alpha.
    assert_eq!(blend_color(rgba(10, 20, 30, 0), rgba(200, 100, 50, 100)), rgba(200, 100, 50, 100));
}

#[test]
fn two_half_alphas_combine() {
    // fa = ba = 128: A = 255*128 + 128*127 = 48896; alpha = round(48896 / 255) = 192.
    // r = (0 + 255*128*127) / 48896 = 84.
    assert_eq!(blend_color(rgba(255, 0, 0, 128), rgba(0, 0, 255, 128)), rgba(84, 0, 170, 192));
}
