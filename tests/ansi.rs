use rasterizer::ansi::{clear_line, move_back, move_down, move_left, move_right, move_up};

#[test]
fn cursor_moves() {
    assert_eq!(move_up(1), b"\x1b[1A".to_vec());
    assert_eq!(move_down(23), b"\x1b[23B".to_vec());
    assert_eq!(move_right(0), b"\x1b[0C".to_vec());
    assert_eq!(move_left(1907), b"\x1b[1907D".to_vec());
}

#[test]
fn move_back_goes_far_left() {
    assert_eq!(move_back(), b"\x1b[10000D".to_vec());
}

#[test]
fn clear_line_sequence() {
    assert_eq!(clear_line(), b"\x1b[2K".to_vec());
}

#[test]
fn large_counts_are_written_in_full() {
    let s = move_up(usize::MAX);
    assert_eq!(s, format!("\x1b[{}A", usize::MAX).into_bytes());
}
