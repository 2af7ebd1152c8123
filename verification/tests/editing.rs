use edit_core::cursor::locate;
use edit_core::session::{EditSession, Event, Outcome};

fn chars(s: &str) -> Vec<char> {
    s.chars().collect()
}

fn session(s: &str) -> EditSession {
    EditSession::new(chars(s))
}

fn content(s: &EditSession) -> String {
    s.content_chars().into_iter().collect()
}

#[test]
fn new_session_starts_at_origin() {
    let s = session("hello\nworld");
    assert_eq!(s.offset(), 0);
    assert_eq!(s.screen_row(), 0);
    assert_eq!(s.screen_col(), 0);
    assert!(!s.is_escape_pending());
}

#[test]
fn typing_at_start_of_text() {
    let mut s = session("hello\nworld");
    let out = s.handle_event(Event::Character('X'));
    assert_eq!(content(&s), "Xhello\nworld");
    assert_eq!(s.offset(), 1);
    assert_eq!((s.screen_row(), s.screen_col()), (0, 1));
    assert_eq!(out, Outcome { buffer_changed: true, terminate: false });
}

#[test]
fn backspace_at_end_of_single_line() {
    let mut s = session("ab");
    s.handle_event(Event::ArrowRight);
    s.handle_event(Event::ArrowRight);
    assert_eq!(s.offset(), 2);
    let out = s.handle_event(Event::Backspace);
    assert_eq!(content(&s), "a");
    assert_eq!(s.offset(), 1);
    assert_eq!(out, Outcome { buffer_changed: true, terminate: false });
}

#[test]
fn mouse_click_clamps_to_line_end() {
    let mut s = session("ab\ncd");
    s.handle_event(Event::MouseClick(10, 0));
    assert_eq!((s.screen_row(), s.screen_col()), (0, 2));
    assert_eq!(s.offset(), 2);
}

#[test]
fn mouse_click_row_out_of_range_uses_last_line_length() {
    let mut s = session("ab\ncd");
    s.handle_event(Event::MouseClick(1, 9));
    assert_eq!((s.screen_row(), s.screen_col()), (1, 1));
    assert_eq!(s.offset(), 4);
}

#[test]
fn arrow_left_at_start_stays() {
    let mut s = session("ab\ncd");
    for _ in 0..4 {
        let out = s.handle_event(Event::ArrowLeft);
        assert_eq!(s.offset(), 0);
        assert_eq!((s.screen_row(), s.screen_col()), (0, 0));
        assert_eq!(out, Outcome { buffer_changed: false, terminate: false });
    }
}

#[test]
fn arrow_right_at_end_stays() {
    let mut s = session("ab\ncd");
    for _ in 0..5 {
        s.handle_event(Event::ArrowRight);
    }
    assert_eq!(s.offset(), 5);
    for _ in 0..3 {
        s.handle_event(Event::ArrowRight);
        assert_eq!(s.offset(), 5);
        assert_eq!((s.screen_row(), s.screen_col()), (1, 2));
    }
}

#[test]
fn arrow_left_carries_to_previous_line() {
    let mut s = session("ab\ncd");
    for _ in 0..3 {
        s.handle_event(Event::ArrowRight);
    }
    assert_eq!(s.offset(), 3);
    assert_eq!((s.screen_row(), s.screen_col()), (1, 0));
    s.handle_event(Event::ArrowLeft);
    assert_eq!((s.screen_row(), s.screen_col()), (0, 2));
    assert_eq!(s.offset(), 2);
}

#[test]
fn arrow_right_carries_to_next_line() {
    let mut s = session("ab\ncd");
    s.handle_event(Event::ArrowRight);
    s.handle_event(Event::ArrowRight);
    assert_eq!((s.screen_row(), s.screen_col()), (0, 2));
    s.handle_event(Event::ArrowRight);
    assert_eq!((s.screen_row(), s.screen_col()), (1, 0));
    assert_eq!(s.offset(), 3);
}

#[test]
fn arrow_down_and_up_keep_column() {
    let mut s = session("ab\ncd");
    s.handle_event(Event::ArrowRight);
    s.handle_event(Event::ArrowDown);
    assert_eq!((s.screen_row(), s.screen_col()), (1, 1));
    assert_eq!(s.offset(), 4);
    s.handle_event(Event::ArrowUp);
    assert_eq!((s.screen_row(), s.screen_col()), (0, 1));
    assert_eq!(s.offset(), 1);
}

#[test]
fn arrow_down_onto_shorter_line_clamps_to_line_end() {
    let mut s = session("abcdef\ncd");
    for _ in 0..5 {
        s.handle_event(Event::ArrowRight);
    }
    assert_eq!((s.screen_row(), s.screen_col()), (0, 5));
    s.handle_event(Event::ArrowDown);
    assert_eq!(s.screen_row(), 1);
    assert_eq!(s.screen_col(), 2);
    assert_eq!(s.offset(), 9);
}

#[test]
fn offset_agreement_after_moves() {
    let mut s = session("ab\ncd\nefg");
    let moves = [
        Event::ArrowRight,
        Event::ArrowDown,
        Event::ArrowRight,
        Event::ArrowRight,
        Event::MouseClick(7, 2),
        Event::ArrowLeft,
        Event::ArrowUp,
    ];
    for e in moves {
        s.handle_event(e);
        let lines = s.lines();
        let (row, col) = locate(&lines, s.offset());
        assert_eq!(row as i128, s.screen_row());
        assert_eq!(col as i128, s.screen_col());
    }
}

#[test]
fn insert_newline_carries_cursor_to_next_line() {
    let mut s = session("ab");
    s.handle_event(Event::ArrowRight);
    s.handle_event(Event::Character('\n'));
    assert_eq!(content(&s), "a\nb");
    assert_eq!(s.offset(), 2);
    assert_eq!((s.screen_row(), s.screen_col()), (1, 0));
}

#[test]
fn backspace_at_start_of_text_is_noop() {
    // Nothing stands before the cursor at offset 0: the leftward step
    // clamps in place and the deletion is swallowed as a no-op.
    let mut s = session("ab");
    let out = s.handle_event(Event::Backspace);
    assert_eq!(content(&s), "ab");
    assert_eq!(s.offset(), 0);
    assert_eq!(out, Outcome { buffer_changed: false, terminate: false });
}

#[test]
fn backspace_on_empty_text_is_noop() {
    let mut s = session("");
    let out = s.handle_event(Event::Backspace);
    assert_eq!(content(&s), "");
    assert_eq!(s.offset(), 0);
    assert_eq!(out, Outcome { buffer_changed: false, terminate: false });
}

#[test]
fn backspace_joins_lines_across_newline() {
    let mut s = session("ab\ncd");
    for _ in 0..3 {
        s.handle_event(Event::ArrowRight);
    }
    assert_eq!(s.offset(), 3);
    s.handle_event(Event::Backspace);
    assert_eq!(content(&s), "abcd");
    assert_eq!(s.offset(), 2);
    assert_eq!((s.screen_row(), s.screen_col()), (0, 2));
}

#[test]
fn delete_at_cursor_removes_forward() {
    let mut s = session("ab");
    assert!(s.delete_at_cursor());
    assert_eq!(content(&s), "b");
    assert_eq!(s.offset(), 0);
}

#[test]
fn delete_at_cursor_at_end_is_noop() {
    let mut s = session("ab");
    s.handle_event(Event::ArrowRight);
    s.handle_event(Event::ArrowRight);
    assert!(!s.delete_at_cursor());
    assert_eq!(content(&s), "ab");
    assert_eq!(s.offset(), 2);
}

#[test]
fn escape_then_nothing_terminates() {
    let mut s = session("ab");
    let out = s.handle_event(Event::Escape);
    assert_eq!(out, Outcome { buffer_changed: false, terminate: false });
    assert!(s.is_escape_pending());
    let out = s.handle_event(Event::NoEvent);
    assert_eq!(out, Outcome { buffer_changed: false, terminate: true });
    assert!(!s.is_escape_pending());
}

#[test]
fn escape_then_key_is_discharged() {
    let mut s = session("ab");
    s.handle_event(Event::Escape);
    let out = s.handle_event(Event::Character('x'));
    assert_eq!(out, Outcome { buffer_changed: false, terminate: false });
    assert_eq!(content(&s), "ab");
    assert!(!s.is_escape_pending());
    s.handle_event(Event::Character('y'));
    assert_eq!(content(&s), "yab");
}

#[test]
fn escape_then_arrow_moves() {
    let mut s = session("ab");
    s.handle_event(Event::Escape);
    let out = s.handle_event(Event::ArrowRight);
    assert_eq!(out, Outcome { buffer_changed: false, terminate: false });
    assert_eq!(s.offset(), 1);
    assert!(!s.is_escape_pending());
}

#[test]
fn other_and_no_event_change_nothing() {
    let mut s = session("ab");
    s.handle_event(Event::ArrowRight);
    for e in [Event::Other, Event::NoEvent] {
        let out = s.handle_event(e);
        assert_eq!(out, Outcome { buffer_changed: false, terminate: false });
        assert_eq!(content(&s), "ab");
        assert_eq!(s.offset(), 1);
    }
}

#[test]
fn move_to_resolves_requested_position() {
    let mut s = session("ab\ncd");
    s.move_to(1, 1);
    assert_eq!(s.offset(), 4);
    s.move_to(-1, 1);
    assert_eq!((s.screen_row(), s.screen_col()), (0, 2));
    assert_eq!(s.offset(), 2);
}

#[test]
fn move_to_far_out_of_range_is_clamped() {
    let mut s = session("ab\ncd");
    s.move_to(i128::MAX, 0);
    assert_eq!((s.screen_row(), s.screen_col()), (1, 0));
    assert_eq!(s.offset(), 3);
    s.move_to(i128::MIN, i128::MAX);
    assert_eq!((s.screen_row(), s.screen_col()), (0, 0));
    assert_eq!(s.offset(), 0);
}

#[test]
fn session_reports_content_length() {
    let s = session("ab\ncd");
    assert_eq!(s.content_length(), 5);
}
