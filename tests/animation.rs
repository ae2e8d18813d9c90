use rasterizer::animation::{encode_animation, frame_delay, plan_animation, AnimationError, NoProgress, ProgressLog};
use rasterizer::canvas::Canvas;
use rasterizer::color::Color;

fn shade(v: u8) -> Color {
    Color { r: v, g: v, b: v, a: 255 }
}

#[test]
fn frame_delay_in_centiseconds() {
    assert_eq!(frame_delay(10), 10);
    assert_eq!(frame_delay(1), 100);
    assert_eq!(frame_delay(3), 33);
    // round(1000 / 51) = 20 ms.
    assert_eq!(frame_delay(51), 2);
    assert_eq!(frame_delay(1000), 0);
}

#[test]
fn no_frames_is_an_error() {
    assert_eq!(plan_animation(&Vec::new(), 10).err(), Some(AnimationError::NoFrames));
    assert_eq!(encode_animation(&Vec::new(), 10, &mut NoProgress).err(), Some(AnimationError::NoFrames));
}

#[test]
fn zero_frame_rate_is_an_error() {
    let frames = vec![Canvas::new(2, 2, shade(1))];
    assert_eq!(plan_animation(&frames, 0).err(), Some(AnimationError::ZeroFrameRate));
}

#[test]
fn mismatched_sizes_fail_before_any_frame() {
    let frames = vec![Canvas::new(10, 10, shade(1)), Canvas::new(10, 9, shade(2))];
    let mut log = ProgressLog { reports: Vec::new() };
    assert_eq!(encode_animation(&frames, 10, &mut log).err(), Some(AnimationError::SizeMismatch));
    assert!(log.reports.is_empty());
}

#[test]
fn oversized_frames_are_an_error() {
    let frames = vec![Canvas::new(65536, 1, shade(1))];
    assert_eq!(plan_animation(&frames, 10).err(), Some(AnimationError::TooLarge));
}

#[test]
fn plan_keeps_frames_in_order() {
    let frames = vec![Canvas::new(2, 1, shade(1)), Canvas::new(2, 1, shade(2))];
    let plan = plan_animation(&frames, 25).ok().unwrap();
    assert_eq!((plan.width, plan.height, plan.delay), (2, 1, 4));
    assert_eq!(plan.frames, vec![vec![1, 1, 1, 255, 1, 1, 1, 255], vec![2, 2, 2, 255, 2, 2, 2, 255]]);
}

#[test]
fn three_frames_loop_forever() {
    let frames = vec![Canvas::new(10, 10, shade(10)), Canvas::new(10, 10, shade(120)), Canvas::new(10, 10, shade(250))];
    let mut log = ProgressLog { reports: Vec::new() };
    let bytes = encode_animation(&frames, 10, &mut log).ok().unwrap();
    assert_eq!(log.reports, vec![(1, 3), (2, 3), (3, 3)]);

    let mut decoder = gif::Decoder::new(&bytes[..]).unwrap();
    assert_eq!((decoder.width(), decoder.height()), (10, 10));
    let mut delays = Vec::new();
    while let Some(frame) = decoder.read_next_frame().unwrap() {
        assert_eq!((frame.width, frame.height), (10, 10));
        delays.push(frame.delay);
    }
    assert_eq!(delays, vec![10, 10, 10]);
    assert_eq!(decoder.repeat(), gif::Repeat::Infinite);
}

#[test]
fn file_starts_with_screen_and_loop_and_ends_with_trailer() {
    let frames = vec![Canvas::new(300, 2, shade(7))];
    let bytes = encode_animation(&frames, 4, &mut NoProgress).ok().unwrap();
    let mut head = b"GIF89a".to_vec();
    head.extend_from_slice(&[0x2c, 0x01, 0x02, 0x00, 0x80, 0, 0, 0, 0, 0, 0, 0, 0]);
    head.extend_from_slice(&[0x21, 0xff, 0x0b]);
    head.extend_from_slice(b"NETSCAPE2.0");
    head.extend_from_slice(&[0x03, 0x01, 0x00, 0x00, 0x00]);
    assert_eq!(&bytes[..head.len()], &head[..]);
    assert_eq!(bytes.last(), Some(&0x3b));
}
