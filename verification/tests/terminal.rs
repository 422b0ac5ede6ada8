use nesti::digits::push_decimal;
use nesti::terminal::{count_lines, redraw_sequence};

#[test]
fn count_lines_counts_as_lines_does() {
    for text in ["", "a", "a\n", "a\nb", "a\nb\n", "\n", "\n\n", "a\n\nb", "\n  x  \n\n"] {
        assert_eq!(count_lines(text), text.lines().count(), "{:?}", text);
    }
}

#[test]
fn first_frame_is_only_printed() {
    let frame = "a\nb\nc\n";
    assert_eq!(count_lines(frame), 3);
    assert_eq!(redraw_sequence(0, frame), frame);
}

#[test]
fn next_frame_moves_up_and_clears_first() {
    let frame = "1\n2\n3\n4\n5\n";
    assert_eq!(count_lines(frame), 5);
    assert_eq!(redraw_sequence(3, frame), format!("\x1b[3A\x1b[J{}", frame));
}

#[test]
fn empty_frame_after_a_frame_still_clears() {
    assert_eq!(redraw_sequence(2, ""), "\x1b[2A\x1b[J");
    assert_eq!(redraw_sequence(0, ""), "");
}

#[test]
fn long_frames_move_up_in_steps() {
    assert_eq!(redraw_sequence(65535, "x"), "\x1b[65535A\x1b[Jx");
    assert_eq!(redraw_sequence(65536, "x"), "\x1b[65535A\x1b[1A\x1b[Jx");
    assert_eq!(redraw_sequence(131075, "x"), "\x1b[65535A\x1b[65535A\x1b[5A\x1b[Jx");
}

#[test]
fn push_decimal_writes_digits() {
    for n in [0u128, 7, 10, 42, 100, 65535, 1_000_000_007, u128::MAX] {
        let mut text = String::from("n=");
        push_decimal(&mut text, n);
        assert_eq!(text, format!("n={}", n));
    }
}
