//! The cursor translator: the mapping between a requested screen position
//! and a legal position inside the text, and between positions and linear
//! offsets.
//!
//! A requested position may lie outside the text. The row is clamped into
//! the text first; an out-of-range column is then carried across the line
//! boundary — left past the start of a line lands at the end of the previous
//! line, right past the end of a line lands on the next line — with the
//! newline counting as exactly one offset unit, and the position is clamped
//! at the extremities of the text instead of carrying further.

use vstd::prelude::*;

use crate::buffer::lines_view;
use crate::text::{decode, join_lines, lemma_decode_valid, lemma_join_len, lemma_line_len_le_join,
    lemma_offset_in_join, lemma_prefix_len_mono, offset_of, prefix_len};

verus! {

/// Saturation bound for requested coordinates: far beyond any text that can
/// exist in memory, so limiting a request to it never changes what the
/// request resolves to.
const COORD_SAT: i128 = 0x1000_0000_0000_0000_0000;

/// The row actually addressed by a requested row: clamped into the text,
/// which always holds at least one line.
pub open spec fn clamp_row(ls: Seq<Seq<char>>, r: int) -> int {
    let m = if r > ls.len() - 1 {
        ls.len() - 1
    } else {
        r
    };
    if m < 0 {
        0
    } else {
        m
    }
}

/// The resolved (row, col) for a requested screen position (cand_col,
/// cand_row) under a viewport origin: clamp the row, then carry an
/// out-of-range column across the line boundary, clamping at the
/// extremities of the text.
pub open spec fn resolve_pos(
    ls: Seq<Seq<char>>,
    origin_line: int,
    origin_col: int,
    cand_col: int,
    cand_row: int,
) -> (int, int) {
    let row0 = clamp_row(ls, cand_row + origin_line);
    let x = cand_col + origin_col;
    if x < 0 {
        if row0 > 0 {
            let c = ls[row0 - 1].len() + x + 1;
            (row0 - 1, if c < 0 { 0 } else { c })
        } else {
            (row0, 0)
        }
    } else if x > ls[row0].len() {
        if row0 < ls.len() - 1 {
            let c = x - (ls[row0].len() + 1);
            (row0 + 1, if c < 0 || c > ls[row0 + 1].len() { 0 } else { c })
        } else {
            (row0, ls[row0].len() as int)
        }
    } else {
        (row0, x)
    }
}

/// Resolves a requested screen position against a line decomposition and
/// returns the legal (row, col) it addresses together with the linear
/// offset of that position.
pub fn resolve(
    lines: &Vec<Vec<char>>,
    origin_line: usize,
    origin_col: usize,
    cand_col: i128,
    cand_row: i128,
) -> (res: (usize, usize, usize))
    requires
        lines@.len() >= 1,
        join_lines(lines_view(lines@)).len() <= usize::MAX,
    ensures
        ({
            let rc = resolve_pos(
                lines_view(lines@),
                origin_line as int,
                origin_col as int,
                cand_col as int,
                cand_row as int,
            );
            &&& res.0 == rc.0
            &&& res.1 == rc.1
            &&& res.2 == offset_of(lines_view(lines@), rc.0, rc.1)
        }),
        res.0 < lines@.len(),
        res.1 <= lines_view(lines@)[res.0 as int].len(),
        res.2 <= join_lines(lines_view(lines@)).len(),
{
    let ghost ls = lines_view(lines@);
    // Saturate far-out candidates before any arithmetic: everything beyond
    // the text clamps or carries to the same place anyway, and every later
    // sum then stays within i128.
    let sat_col: i128 = if cand_col > COORD_SAT {
        COORD_SAT
    } else if cand_col < -COORD_SAT {
        -COORD_SAT
    } else {
        cand_col
    };
    let sat_row: i128 = if cand_row > COORD_SAT {
        COORD_SAT
    } else if cand_row < -COORD_SAT {
        -COORD_SAT
    } else {
        cand_row
    };
    proof {
        assert forall|i: int| 0 <= i < ls.len() implies ls[i].len()
            <= join_lines(ls).len() by {
            lemma_line_len_le_join(ls, i);
        }
        lemma_line_len_le_join(ls, 0);
        assert(resolve_pos(ls, origin_line as int, origin_col as int, cand_col as int,
            cand_row as int) == resolve_pos(ls, origin_line as int, origin_col as int,
            sat_col as int, sat_row as int));
    }
    let cand_col = sat_col;
    let cand_row = sat_row;
    let line_count = lines.len();
    let mut y: i128 = cand_row + origin_line as i128;
    if y > line_count as i128 - 1 {
        y = line_count as i128 - 1;
    }
    if y < 0 {
        y = 0;
    }
    let mut row: usize = y as usize;
    assert(row as int == clamp_row(ls, cand_row + origin_line));
    let x: i128 = cand_col + origin_col as i128;
    let col: usize;
    if x < 0 {
        if row > 0 {
            row = row - 1;
            let ll = lines[row].len();
            let c: i128 = ll as i128 + x + 1;
            col = if c < 0 {
                0
            } else {
                c as usize
            };
        } else {
            col = 0;
        }
    } else if x > lines[row].len() as i128 {
        if row + 1 < line_count {
            let prev = lines[row].len();
            row = row + 1;
            let c: i128 = x - (prev as i128 + 1);
            col = if c < 0 || c > lines[row].len() as i128 {
                0
            } else {
                c as usize
            };
        } else {
            col = lines[row].len();
        }
    } else {
        col = x as usize;
    }
    assert((row as int, col as int) == resolve_pos(
        ls,
        origin_line as int,
        origin_col as int,
        cand_col as int,
        cand_row as int,
    ));
    proof {
        lemma_offset_in_join(ls, row as int, col as int);
        lemma_join_len(ls);
    }
    let mut off: usize = 0;
    let mut i: usize = 0;
    while i < row
        invariant
            i <= row,
            row < lines@.len(),
            col <= lines_view(lines@)[row as int].len(),
            off == prefix_len(lines_view(lines@), i as int),
            join_lines(lines_view(lines@)).len() <= usize::MAX,
        decreases row - i,
    {
        proof {
            lemma_prefix_len_mono(lines_view(lines@), i + 1, lines@.len() - 1);
            lemma_join_len(lines_view(lines@));
            lemma_offset_in_join(lines_view(lines@), row as int, col as int);
        }
        off = off + lines[i].len() + 1;
        i = i + 1;
    }
    proof {
        lemma_offset_in_join(ls, row as int, col as int);
    }
    let offset = off + col;
    (row, col, offset)
}

/// The position addressed by a linear offset: the inverse of the offset
/// computation, walking the lines from the top.
pub fn locate(lines: &Vec<Vec<char>>, off: usize) -> (rc: (usize, usize))
    requires
        lines@.len() >= 1,
        off <= join_lines(lines_view(lines@)).len(),
    ensures
        (rc.0 as int, rc.1 as int) == decode(lines_view(lines@), off as int),
        rc.0 < lines@.len(),
        rc.1 <= lines_view(lines@)[rc.0 as int].len(),
        offset_of(lines_view(lines@), rc.0 as int, rc.1 as int) == off,
{
    let ghost ls = lines_view(lines@);
    proof {
        lemma_decode_valid(ls, off as int);
    }
    let mut r: usize = 0;
    let mut rem: usize = off;
    proof {
        assert(ls.skip(0) =~= ls);
    }
    while r < lines.len() - 1 && rem > lines[r].len()
        invariant
            1 <= lines@.len(),
            r < lines@.len(),
            ls == lines_view(lines@),
            ({
                let d = decode(ls.skip(r as int), rem as int);
                decode(ls, off as int) == (r + d.0, d.1)
            }),
        decreases lines@.len() - r,
    {
        proof {
            assert(ls.skip(r as int).skip(1) =~= ls.skip(r as int + 1));
            assert(ls.skip(r as int)[0] == ls[r as int]);
        }
        rem = rem - lines[r].len() - 1;
        r = r + 1;
    }
    proof {
        assert(ls.skip(r as int)[0] == ls[r as int]);
        assert(decode(ls.skip(r as int), rem as int) == (0int, rem as int));
    }
    (r, rem)
}

} // verus!
