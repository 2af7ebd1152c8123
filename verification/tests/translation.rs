use edit_core::buffer::{OutOfRange, TextBuffer};
use edit_core::cursor::{locate, resolve};

fn chars(s: &str) -> Vec<char> {
    s.chars().collect()
}

fn line_vec(s: &str) -> Vec<Vec<char>> {
    TextBuffer::new(chars(s)).lines()
}

fn join(lines: &[Vec<char>]) -> String {
    let parts: Vec<String> = lines.iter().map(|l| l.iter().collect()).collect();
    parts.join("\n")
}

#[test]
fn lines_roundtrip_trailing_newline() {
    let text = "ab\ncd\n";
    let lines = line_vec(text);
    assert_eq!(lines.len(), 3);
    assert_eq!(lines[0], chars("ab"));
    assert_eq!(lines[1], chars("cd"));
    assert_eq!(lines[2], chars(""));
    assert_eq!(join(&lines), text);
}

#[test]
fn lines_roundtrip_plain() {
    let text = "one\ntwo\nthree";
    assert_eq!(join(&line_vec(text)), text);
}

#[test]
fn lines_of_empty_content() {
    let lines = line_vec("");
    assert_eq!(lines.len(), 1);
    assert_eq!(lines[0], chars(""));
    assert_eq!(join(&lines), "");
}

#[test]
fn resolve_in_range_is_identity() {
    let lines = line_vec("ab\ncd");
    let (row, col, off) = resolve(&lines, 0, 0, 1, 1);
    assert_eq!((row, col, off), (1, 1, 4));
}

#[test]
fn resolve_carries_left_across_line() {
    let lines = line_vec("ab\ncd");
    let (row, col, off) = resolve(&lines, 0, 0, -1, 1);
    assert_eq!((row, col, off), (0, 2, 2));
}

#[test]
fn resolve_carries_right_across_line() {
    let lines = line_vec("ab\ncd");
    let (row, col, off) = resolve(&lines, 0, 0, 3, 0);
    assert_eq!((row, col, off), (1, 0, 3));
}

#[test]
fn resolve_clamps_at_buffer_start() {
    let lines = line_vec("ab\ncd");
    let (row, col, off) = resolve(&lines, 0, 0, -7, 0);
    assert_eq!((row, col, off), (0, 0, 0));
}

#[test]
fn resolve_clamps_at_buffer_end() {
    let lines = line_vec("ab\ncd");
    let (row, col, off) = resolve(&lines, 0, 0, 9, 1);
    assert_eq!((row, col, off), (1, 2, 5));
}

#[test]
fn resolve_clamps_row_below_zero() {
    let lines = line_vec("ab\ncd");
    let (row, col, off) = resolve(&lines, 0, 0, 1, -4);
    assert_eq!((row, col, off), (0, 1, 1));
}

#[test]
fn resolve_clamps_row_past_last_line() {
    let lines = line_vec("ab\ncd");
    let (row, col, off) = resolve(&lines, 0, 0, 1, 9);
    assert_eq!((row, col, off), (1, 1, 4));
}

#[test]
fn resolve_far_right_carry_lands_at_column_zero() {
    // The carried value overshoots the next line too, so it clamps to 0.
    let lines = line_vec("ab\ncd");
    let (row, col, off) = resolve(&lines, 0, 0, 9, 0);
    assert_eq!((row, col, off), (1, 0, 3));
}

#[test]
fn resolve_handles_extreme_candidates() {
    let lines = line_vec("ab\ncd");
    let (row, col, off) = resolve(&lines, 0, 0, i128::MIN, i128::MIN);
    assert_eq!((row, col, off), (0, 0, 0));
    let (row, col, off) = resolve(&lines, 0, 0, i128::MAX, i128::MAX);
    assert_eq!((row, col, off), (1, 2, 5));
    let (row, col, off) = resolve(&lines, 0, 0, i128::MIN, i128::MAX);
    assert_eq!((row, col, off), (0, 0, 0));
}

#[test]
fn locate_inverts_resolve() {
    let lines = line_vec("ab\ncd\nefg");
    for off in 0..9usize {
        let (row, col) = locate(&lines, off);
        let (r2, c2, o2) = resolve(&lines, 0, 0, col as i128, row as i128);
        assert_eq!((r2, c2, o2), (row, col, off));
    }
}

#[test]
fn buffer_insert_then_delete_restores() {
    let mut b = TextBuffer::new(chars("ab\ncd"));
    b.insert(1, 'x');
    assert_eq!(b.chars(), chars("axb\ncd"));
    assert_eq!(b.delete(1), Ok('x'));
    assert_eq!(b.chars(), chars("ab\ncd"));
}

#[test]
fn buffer_delete_out_of_range_errors() {
    let mut b = TextBuffer::new(chars("ab"));
    assert_eq!(b.delete(2), Err(OutOfRange));
    assert_eq!(b.chars(), chars("ab"));
    let mut e = TextBuffer::new(chars(""));
    assert_eq!(e.delete(0), Err(OutOfRange));
    assert_eq!(e.length(), 0);
}

#[test]
fn buffer_length_counts_newlines() {
    let b = TextBuffer::new(chars("ab\ncd"));
    assert_eq!(b.length(), 5);
}
