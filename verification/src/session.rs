//! The edit session: one text buffer and one cursor, driven by classified
//! input events.
//!
//! The cursor is kept as a linear offset together with the (row, col)
//! position it addresses; the two always agree under the translation of
//! `crate::cursor`. Every operation resolves movement through that one
//! translation, so boundary requests clamp or carry and never fail.

use vstd::prelude::*;

use crate::buffer::{lines_view, TextBuffer};
use crate::cursor::{clamp_row, locate, resolve, resolve_pos};
use crate::text::{decode, lemma_decode_offset_of, lemma_join_len, lemma_offset_in_join,
    lemma_prefix_len_at_least, lemma_prefix_len_mono, lemma_split_join_roundtrip,
    lemma_split_lines_nonempty, offset_of, prefix_len, split_lines};

verus! {

/// A classified input event, as the host's input layer produces them.
#[derive(Clone, Copy, PartialEq, Eq, Structural, Debug)]
pub enum Event {
    /// A printable character (or a newline) to insert at the cursor.
    Character(char),
    /// Delete the character before the cursor.
    Backspace,
    ArrowUp,
    ArrowDown,
    ArrowLeft,
    ArrowRight,
    /// A click at screen position (col, row).
    MouseClick(i32, i32),
    /// The escape key: the session waits for one more event to decide.
    Escape,
    /// An unrecognized event; it never touches buffer or cursor.
    Other,
    /// A non-blocking poll returned nothing.
    NoEvent,
}

/// What one handled event asks of the host: whether the text changed (so a
/// repaint is due) and whether the session is over.
#[derive(Clone, Copy, PartialEq, Eq, Structural, Debug)]
pub struct Outcome {
    pub buffer_changed: bool,
    pub terminate: bool,
}

/// The mathematical state of an edit session.
#[verifier::ext_equal]
pub struct SessionModel {
    pub content: Seq<char>,
    pub offset: int,
    pub row: int,
    pub col: int,
    pub origin_line: int,
    pub origin_col: int,
    pub pending_escape: bool,
}

/// Well-formedness: the cursor addresses a legal position of the text and
/// the stored offset is exactly the offset of that position.
pub open spec fn wf(m: SessionModel) -> bool {
    let ls = split_lines(m.content);
    &&& 0 <= m.row < ls.len()
    &&& 0 <= m.col <= ls[m.row].len()
    &&& m.offset == offset_of(ls, m.row, m.col)
    &&& 0 <= m.origin_line
    &&& 0 <= m.origin_col
}

/// The state a fresh session starts in: cursor at offset 0, screen (0, 0),
/// viewport origin at the top left.
pub open spec fn init_model(content: Seq<char>) -> SessionModel {
    SessionModel {
        content,
        offset: 0,
        row: 0,
        col: 0,
        origin_line: 0,
        origin_col: 0,
        pending_escape: false,
    }
}

/// The state after a movement request to screen position (cand_col,
/// cand_row): the position is resolved by the cursor translation, the
/// buffer is untouched.
pub open spec fn move_model(m: SessionModel, cand_col: int, cand_row: int) -> SessionModel {
    let ls = split_lines(m.content);
    let rc = resolve_pos(ls, m.origin_line, m.origin_col, cand_col, cand_row);
    SessionModel { row: rc.0, col: rc.1, offset: offset_of(ls, rc.0, rc.1), ..m }
}

/// The state after inserting a character at the cursor: the buffer grows at
/// the old offset, then the cursor re-resolves one column to the right of
/// its old screen position (which carries onto the next line when the
/// inserted character was itself a newline).
pub open spec fn insert_model(m: SessionModel, c: char) -> SessionModel {
    let grown = SessionModel { content: m.content.insert(m.offset, c), ..m };
    move_model(grown, m.col - m.origin_col + 1, m.row - m.origin_line)
}

/// The cursor state after the leftward step that precedes a backspace
/// deletion: the same carry rule as an arrow-left.
pub open spec fn backspace_moves(m: SessionModel) -> SessionModel {
    move_model(m, m.col - m.origin_col - 1, m.row - m.origin_line)
}

/// Whether a backspace actually deletes: only when a character stands
/// before the cursor. At the start of the text there is none, and the
/// backspace is a legal no-op, never an error.
pub open spec fn backspace_deletes(m: SessionModel) -> bool {
    m.offset > 0
}

/// The state after deleting the character at the cursor offset: the offset
/// is kept, and the stored (row, col) is restated from it against the new
/// line decomposition.
pub open spec fn remove_at_model(m: SessionModel) -> SessionModel {
    let shrunk = m.content.remove(m.offset);
    let rc = decode(split_lines(shrunk), m.offset);
    SessionModel { content: shrunk, row: rc.0, col: rc.1, ..m }
}

/// The state after a backspace: step the cursor left with the usual carry,
/// then delete the character it now addresses. With the cursor already at
/// the start of the text the step clamps in place and nothing is deleted:
/// the failed deletion is swallowed, not surfaced.
pub open spec fn backspace_model(m: SessionModel) -> SessionModel {
    let moved = backspace_moves(m);
    if m.offset > 0 {
        remove_at_model(moved)
    } else {
        moved
    }
}

/// The state after a forward delete at the cursor, without moving first; a
/// no-op when the cursor sits at the end of the text.
pub open spec fn forward_delete_model(m: SessionModel) -> SessionModel {
    if m.offset < m.content.len() {
        remove_at_model(m)
    } else {
        m
    }
}

/// The state after a mouse click at screen position (mx, my): the column
/// request is first limited to the clicked line's length (the line of the
/// clicked row when that row exists, of the last line otherwise), so a
/// click past the end of a line lands at the end of that line and never
/// carries onto the next.
pub open spec fn mouse_model(m: SessionModel, mx: int, my: int) -> SessionModel {
    let ls = split_lines(m.content);
    let lim_row = if 0 <= my < ls.len() {
        my
    } else {
        ls.len() - 1
    };
    let lim = ls[lim_row].len() as int;
    let cc = if mx <= lim {
        mx
    } else {
        lim
    };
    move_model(m, cc, my)
}

pub open spec fn is_arrow(e: Event) -> bool {
    match e {
        Event::ArrowUp | Event::ArrowDown | Event::ArrowLeft | Event::ArrowRight => true,
        _ => false,
    }
}

/// The screen displacement an arrow key requests.
pub open spec fn arrow_deltas(e: Event) -> (int, int) {
    match e {
        Event::ArrowUp => (0int, -1int),
        Event::ArrowDown => (0int, 1int),
        Event::ArrowLeft => (-1int, 0int),
        Event::ArrowRight => (1int, 0int),
        _ => (0int, 0int),
    }
}

/// The state after an arrow key: a movement request one step away from the
/// current screen position.
pub open spec fn arrow_model(m: SessionModel, e: Event) -> SessionModel {
    let d = arrow_deltas(e);
    move_model(m, m.col - m.origin_col + d.0, m.row - m.origin_line + d.1)
}

/// The state transition of one handled event. While an escape is pending,
/// the next event discharges it: an arrow acts as movement, anything else
/// is ignored (and the absence of an event terminates the session, see
/// `step_outcome`). Otherwise each event acts statelessly on the current
/// buffer and cursor.
pub open spec fn step(m: SessionModel, e: Event) -> SessionModel {
    if m.pending_escape {
        let idle = SessionModel { pending_escape: false, ..m };
        if is_arrow(e) {
            arrow_model(idle, e)
        } else {
            idle
        }
    } else {
        match e {
            Event::Character(c) => insert_model(m, c),
            Event::Backspace => backspace_model(m),
            Event::ArrowUp | Event::ArrowDown | Event::ArrowLeft | Event::ArrowRight =>
                arrow_model(m, e),
            Event::MouseClick(mx, my) => mouse_model(m, mx as int, my as int),
            Event::Escape => SessionModel { pending_escape: true, ..m },
            Event::Other => m,
            Event::NoEvent => m,
        }
    }
}

/// What one handled event reports: the text changes exactly on an insertion
/// or on a backspace that found a character to delete, and the session
/// terminates exactly on an escape followed by no further event.
pub open spec fn step_outcome(m: SessionModel, e: Event) -> Outcome {
    if m.pending_escape {
        Outcome { buffer_changed: false, terminate: e is NoEvent }
    } else {
        match e {
            Event::Character(_) => Outcome { buffer_changed: true, terminate: false },
            Event::Backspace => Outcome {
                buffer_changed: backspace_deletes(m),
                terminate: false,
            },
            _ => Outcome { buffer_changed: false, terminate: false },
        }
    }
}

/// One edit session: a text buffer and the cursor state over it.
pub struct EditSession {
    buffer: TextBuffer,
    offset: usize,
    row: usize,
    col: usize,
    origin_line: usize,
    origin_col: usize,
    pending_escape: bool,
}

impl View for EditSession {
    type V = SessionModel;

    closed spec fn view(&self) -> SessionModel {
        SessionModel {
            content: self.buffer@,
            offset: self.offset as int,
            row: self.row as int,
            col: self.col as int,
            origin_line: self.origin_line as int,
            origin_col: self.origin_col as int,
            pending_escape: self.pending_escape,
        }
    }
}

impl EditSession {
    /// A session over the given initial content, cursor at offset 0 and
    /// screen (0, 0).
    pub fn new(initial: Vec<char>) -> (s: EditSession)
        ensures
            s@ == init_model(initial@),
            wf(s@),
    {
        proof {
            lemma_split_lines_nonempty(initial@);
        }
        EditSession {
            buffer: TextBuffer::new(initial),
            offset: 0,
            row: 0,
            col: 0,
            origin_line: 0,
            origin_col: 0,
            pending_escape: false,
        }
    }

    /// Moves the cursor to the requested screen position, clamped and
    /// carried into a legal position of the text. The buffer is untouched.
    pub fn move_to(&mut self, cand_col: i128, cand_row: i128)
        ensures
            final(self)@ == move_model(old(self)@, cand_col as int, cand_row as int),
            wf(final(self)@),
    {
        let lines = self.buffer.lines();
        let (r, c, off) = resolve(&lines, self.origin_line, self.origin_col, cand_col, cand_row);
        self.row = r;
        self.col = c;
        self.offset = off;
        proof {
            assert(self@ =~= move_model(old(self)@, cand_col as int, cand_row as int));
        }
    }

    /// Inserts one character at the cursor offset, then re-resolves the
    /// cursor one screen column to the right; an inserted newline thereby
    /// carries the cursor to the start of the next line.
    pub fn insert_at_cursor(&mut self, c: char)
        requires
            wf(old(self)@),
        ensures
            final(self)@ == insert_model(old(self)@, c),
            wf(final(self)@),
    {
        proof {
            lemma_offset_in_join(split_lines(self.buffer@), self.row as int, self.col as int);
            lemma_split_join_roundtrip(self.buffer@);
        }
        let off = self.offset;
        let sc: i128 = self.col as i128 - self.origin_col as i128 + 1;
        let sr: i128 = self.row as i128 - self.origin_line as i128;
        self.buffer.insert(off, c);
        self.move_to(sc, sr);
        proof {
            assert(self@ =~= insert_model(old(self)@, c));
        }
    }

    /// Steps the cursor one screen column to the left — the same carry rule
    /// as an arrow-left — and deletes the character it then addresses.
    /// Returns whether a character was deleted: with the cursor already at
    /// the start of the text the step clamps in place and the deletion is a
    /// silent no-op, never an error.
    pub fn delete_before_cursor(&mut self) -> (deleted: bool)
        requires
            wf(old(self)@),
        ensures
            final(self)@ == backspace_model(old(self)@),
            deleted == backspace_deletes(old(self)@),
            wf(final(self)@),
    {
        let had_char_before: bool = self.offset > 0;
        let sc: i128 = self.col as i128 - self.origin_col as i128 - 1;
        let sr: i128 = self.row as i128 - self.origin_line as i128;
        self.move_to(sc, sr);
        if had_char_before {
            proof {
                lemma_backspace_step_left(old(self)@);
                lemma_offset_in_join(
                    split_lines(old(self)@.content),
                    old(self)@.row,
                    old(self)@.col,
                );
                lemma_split_join_roundtrip(old(self)@.content);
            }
            let off = self.offset;
            match self.buffer.delete(off) {
                Ok(_) => {
                    proof {
                        lemma_split_join_roundtrip(self.buffer@);
                    }
                    let lines = self.buffer.lines();
                    let (r, c) = locate(&lines, off);
                    self.row = r;
                    self.col = c;
                    proof {
                        assert(self@ =~= backspace_model(old(self)@));
                    }
                    true
                }
                Err(_) => {
                    // The stepped-to offset addresses the character before
                    // the old cursor, so the deletion cannot fail here.
                    proof {
                        assert(false);
                    }
                    false
                }
            }
        } else {
            // At the start of the text nothing stands before the cursor:
            // the deletion is swallowed as a no-op.
            proof {
                assert(self@ =~= backspace_model(old(self)@));
            }
            false
        }
    }

    /// Deletes the character at the cursor offset without moving first; a
    /// silent no-op when the cursor sits at the end of the text. Returns
    /// whether a character was deleted.
    pub fn delete_at_cursor(&mut self) -> (deleted: bool)
        requires
            wf(old(self)@),
        ensures
            final(self)@ == forward_delete_model(old(self)@),
            deleted == (old(self)@.offset < old(self)@.content.len()),
            wf(final(self)@),
    {
        let off = self.offset;
        match self.buffer.delete(off) {
            Ok(_) => {
                proof {
                    lemma_split_join_roundtrip(self.buffer@);
                }
                let lines = self.buffer.lines();
                let (r, c) = locate(&lines, off);
                self.row = r;
                self.col = c;
                proof {
                    assert(self@ =~= forward_delete_model(old(self)@));
                }
                true
            }
            Err(_) => {
                // Deleting at the end of the text is a legal no-op.
                proof {
                    assert(self@ =~= forward_delete_model(old(self)@));
                }
                false
            }
        }
    }

    /// One arrow-key movement: one screen step away from the current
    /// position, with the carry and clamp rules of the translation.
    fn arrow(&mut self, e: Event)
        requires
            is_arrow(e),
        ensures
            final(self)@ == arrow_model(old(self)@, e),
            wf(final(self)@),
    {
        let dx: i128;
        let dy: i128;
        match e {
            Event::ArrowUp => {
                dx = 0;
                dy = -1;
            }
            Event::ArrowDown => {
                dx = 0;
                dy = 1;
            }
            Event::ArrowLeft => {
                dx = -1;
                dy = 0;
            }
            _ => {
                dx = 1;
                dy = 0;
            }
        }
        let sc: i128 = self.col as i128 - self.origin_col as i128 + dx;
        let sr: i128 = self.row as i128 - self.origin_line as i128 + dy;
        self.move_to(sc, sr);
    }

    /// One mouse click: the column request is limited to the clicked line's
    /// length before the movement resolves, so a click past the end of a
    /// line lands at the end of that line.
    fn mouse(&mut self, mx: i32, my: i32)
        ensures
            final(self)@ == mouse_model(old(self)@, mx as int, my as int),
            wf(final(self)@),
    {
        let lines = self.buffer.lines();
        let lim_row: usize = if my >= 0 && (my as usize) < lines.len() {
            my as usize
        } else {
            lines.len() - 1
        };
        let lim = lines[lim_row].len();
        let cc: i128 = if (mx as i128) <= (lim as i128) {
            mx as i128
        } else {
            lim as i128
        };
        self.move_to(cc, my as i128);
    }

    /// Handles one classified input event: dispatches it to movement, edit
    /// or the escape lookahead, and reports whether the text changed and
    /// whether the session is over.
    pub fn handle_event(&mut self, e: Event) -> (out: Outcome)
        requires
            wf(old(self)@),
        ensures
            final(self)@ == step(old(self)@, e),
            out == step_outcome(old(self)@, e),
            wf(final(self)@),
    {
        if self.pending_escape {
            self.pending_escape = false;
            match e {
                Event::NoEvent => Outcome { buffer_changed: false, terminate: true },
                Event::ArrowUp | Event::ArrowDown | Event::ArrowLeft | Event::ArrowRight => {
                    self.arrow(e);
                    Outcome { buffer_changed: false, terminate: false }
                }
                _ => Outcome { buffer_changed: false, terminate: false },
            }
        } else {
            match e {
                Event::Character(c) => {
                    self.insert_at_cursor(c);
                    Outcome { buffer_changed: true, terminate: false }
                }
                Event::Backspace => {
                    let deleted = self.delete_before_cursor();
                    Outcome { buffer_changed: deleted, terminate: false }
                }
                Event::ArrowUp | Event::ArrowDown | Event::ArrowLeft | Event::ArrowRight => {
                    self.arrow(e);
                    Outcome { buffer_changed: false, terminate: false }
                }
                Event::MouseClick(mx, my) => {
                    self.mouse(mx, my);
                    Outcome { buffer_changed: false, terminate: false }
                }
                Event::Escape => {
                    self.pending_escape = true;
                    Outcome { buffer_changed: false, terminate: false }
                }
                Event::Other => Outcome { buffer_changed: false, terminate: false },
                Event::NoEvent => Outcome { buffer_changed: false, terminate: false },
            }
        }
    }

    /// The cursor's linear offset into the content.
    pub fn offset(&self) -> (o: usize)
        ensures
            o == self@.offset,
    {
        self.offset
    }

    /// The cursor's screen row under the current viewport origin.
    pub fn screen_row(&self) -> (r: i128)
        ensures
            r == self@.row - self@.origin_line,
    {
        self.row as i128 - self.origin_line as i128
    }

    /// The cursor's screen column under the current viewport origin.
    pub fn screen_col(&self) -> (c: i128)
        ensures
            c == self@.col - self@.origin_col,
    {
        self.col as i128 - self.origin_col as i128
    }

    /// Whether an escape is pending its one-event lookahead.
    pub fn is_escape_pending(&self) -> (b: bool)
        ensures
            b == self@.pending_escape,
    {
        self.pending_escape
    }

    /// A copy of the full content, for the host to repaint from.
    pub fn content_chars(&self) -> (r: Vec<char>)
        ensures
            r@ == self@.content,
    {
        self.buffer.chars()
    }

    /// Total character count of the content.
    pub fn content_length(&self) -> (n: usize)
        ensures
            n == self@.content.len(),
    {
        self.buffer.length()
    }

    /// The line decomposition of the content.
    pub fn lines(&self) -> (r: Vec<Vec<char>>)
        ensures
            lines_view(r@) == split_lines(self@.content),
    {
        self.buffer.lines()
    }
}

/// Whenever a character stands before the cursor, the leftward step that
/// precedes a backspace moves the cursor exactly one offset unit back —
/// within a line directly, at column 0 across the newline onto the end of
/// the previous line — so the stepped-to offset addresses that character.
pub proof fn lemma_backspace_step_left(m: SessionModel)
    requires
        wf(m),
        m.offset > 0,
    ensures
        backspace_moves(m).offset == m.offset - 1,
{
    let ls = split_lines(m.content);
    assert(prefix_len(ls, 0) == 0);
    assert(clamp_row(ls, m.row - m.origin_line + m.origin_line) == m.row);
    if m.col == 0 {
        assert(m.row > 0);
        assert(prefix_len(ls, m.row) == prefix_len(ls, m.row - 1) + ls[m.row - 1].len() + 1);
    }
}

/// The stored offset and the stored screen position of a well-formed
/// session always agree: decoding the offset against the line decomposition
/// yields exactly the stored (row, col). Every movement re-establishes
/// well-formedness, so this holds after any sequence of moves.
pub proof fn lemma_offset_position_agreement(m: SessionModel)
    requires
        wf(m),
    ensures
        decode(split_lines(m.content), m.offset) == (m.row, m.col),
{
    lemma_decode_offset_of(split_lines(m.content), m.row, m.col);
}

/// Arrow-left with the cursor at the start of the text never moves it: the
/// offset stays 0 and the text is untouched, so repeated arrow-left there
/// changes nothing. Outside the escape lookahead the whole state is
/// unchanged exactly.
pub proof fn lemma_arrow_left_at_start_is_noop(m: SessionModel)
    requires
        wf(m),
        m.offset == 0,
    ensures
        step(m, Event::ArrowLeft).offset == 0,
        step(m, Event::ArrowLeft).content == m.content,
        !m.pending_escape ==> step(m, Event::ArrowLeft) == m,
        step_outcome(m, Event::ArrowLeft) == (Outcome { buffer_changed: false, terminate: false }),
{
    let ls = split_lines(m.content);
    lemma_prefix_len_at_least(ls, m.row);
    assert(m.row == 0 && m.col == 0);
    assert(prefix_len(ls, 0) == 0);
    if !m.pending_escape {
        assert(step(m, Event::ArrowLeft) =~= m);
    }
}

/// Arrow-right with the cursor at the end of the text never moves it: the
/// offset stays at the content length and the text is untouched, so
/// repeated arrow-right there changes nothing. Outside the escape lookahead
/// the whole state is unchanged exactly.
pub proof fn lemma_arrow_right_at_end_is_noop(m: SessionModel)
    requires
        wf(m),
        m.offset == m.content.len(),
    ensures
        step(m, Event::ArrowRight).offset == m.content.len(),
        step(m, Event::ArrowRight).content == m.content,
        !m.pending_escape ==> step(m, Event::ArrowRight) == m,
        step_outcome(m, Event::ArrowRight) == (Outcome { buffer_changed: false, terminate: false }),
{
    let ls = split_lines(m.content);
    lemma_split_join_roundtrip(m.content);
    lemma_join_len(ls);
    if m.row < ls.len() - 1 {
        lemma_prefix_len_mono(ls, m.row + 1, ls.len() - 1);
        assert(prefix_len(ls, m.row + 1) == prefix_len(ls, m.row) + ls[m.row].len() + 1);
        assert(false);
    }
    assert(m.col == ls[m.row].len());
    assert(clamp_row(ls, m.row - m.origin_line + m.origin_line) == m.row);
    if !m.pending_escape {
        assert(step(m, Event::ArrowRight) =~= m);
    }
}

} // verus!
