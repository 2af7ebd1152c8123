//! The mathematical model of a text as a sequence of lines.
//!
//! A text is a sequence of characters; its line decomposition splits it at
//! every newline character. A trailing newline produces a final empty line,
//! so a decomposition always holds at least one line, and joining the lines
//! with single newline separators reconstructs the text exactly.

use vstd::prelude::*;

verus! {

/// The line decomposition of a character sequence: the text split at every
/// newline character. The empty text is one empty line; a trailing newline
/// yields a final empty line.
pub open spec fn split_lines(s: Seq<char>) -> Seq<Seq<char>>
    decreases s.len(),
{
    if s.len() == 0 {
        seq![Seq::<char>::empty()]
    } else if s[0] == '\n' {
        seq![Seq::<char>::empty()] + split_lines(s.skip(1))
    } else {
        let rest = split_lines(s.skip(1));
        seq![seq![s[0]] + rest[0]] + rest.skip(1)
    }
}

/// The inverse of `split_lines`: the lines joined with a single newline
/// separator between consecutive lines.
pub open spec fn join_lines(ls: Seq<Seq<char>>) -> Seq<char>
    decreases ls.len(),
{
    if ls.len() == 0 {
        Seq::empty()
    } else if ls.len() == 1 {
        ls[0]
    } else {
        ls[0].push('\n') + join_lines(ls.skip(1))
    }
}

/// A line decomposition always holds at least one line.
pub proof fn lemma_split_lines_nonempty(s: Seq<char>)
    ensures
        split_lines(s).len() >= 1,
    decreases s.len(),
{
    if s.len() > 0 {
        lemma_split_lines_nonempty(s.skip(1));
    }
}

/// Joining the line decomposition with newlines reconstructs the text
/// exactly: `lines` is a faithful view of the content.
pub proof fn lemma_split_join_roundtrip(s: Seq<char>)
    ensures
        join_lines(split_lines(s)) == s,
    decreases s.len(),
{
    if s.len() == 0 {
        assert(join_lines(split_lines(s)) =~= s);
    } else if s[0] == '\n' {
        lemma_split_join_roundtrip(s.skip(1));
        lemma_split_lines_nonempty(s.skip(1));
        let ls = split_lines(s);
        assert(ls.skip(1) =~~= split_lines(s.skip(1)));
        assert(join_lines(ls) =~= s);
    } else {
        lemma_split_join_roundtrip(s.skip(1));
        lemma_split_lines_nonempty(s.skip(1));
        let rest = split_lines(s.skip(1));
        let ls = split_lines(s);
        if rest.len() == 1 {
            assert(ls.len() == 1);
            assert(join_lines(ls) =~= s);
        } else {
            assert(ls.skip(1) =~~= rest.skip(1));
            assert(join_lines(ls) == ls[0].push('\n') + join_lines(ls.skip(1)));
            assert(ls[0].push('\n') + join_lines(rest.skip(1)) =~=
                seq![s[0]] + (rest[0].push('\n') + join_lines(rest.skip(1))));
            assert(join_lines(ls) =~= s);
        }
    }
}

/// How a decomposition grows when one character is appended: a newline opens
/// a new empty final line, any other character extends the final line.
pub proof fn lemma_split_lines_push(s: Seq<char>, c: char)
    ensures
        c == '\n' ==> split_lines(s.push(c)) == split_lines(s).push(Seq::<char>::empty()),
        c != '\n' ==> split_lines(s.push(c)) == split_lines(s).update(
            split_lines(s).len() - 1,
            split_lines(s).last().push(c),
        ),
    decreases s.len(),
{
    lemma_split_lines_nonempty(s);
    if s.len() == 0 {
        assert(s.push(c).skip(1) =~= s);
        assert(s.push(c)[0] == c);
        if c == '\n' {
            assert(split_lines(s.push(c)) =~~= split_lines(s).push(Seq::<char>::empty()));
        } else {
            assert(split_lines(s.push(c)) =~~= split_lines(s).update(
                split_lines(s).len() - 1,
                split_lines(s).last().push(c),
            ));
        }
    } else {
        assert(s.push(c).skip(1) =~= s.skip(1).push(c));
        lemma_split_lines_push(s.skip(1), c);
        lemma_split_lines_nonempty(s.skip(1));
        let rest = split_lines(s.skip(1));
        if c == '\n' {
            assert(split_lines(s.push(c)) =~~= split_lines(s).push(Seq::<char>::empty()));
        } else {
            let rest2 = rest.update(rest.len() - 1, rest.last().push(c));
            assert(split_lines(s.skip(1).push(c)) == rest2);
            if s[0] == '\n' {
                assert(split_lines(s.push(c)) =~~= split_lines(s).update(
                    split_lines(s).len() - 1,
                    split_lines(s).last().push(c),
                ));
            } else {
                if rest.len() == 1 {
                    assert(rest2[0] == rest[0].push(c));
                    assert(split_lines(s.push(c)) =~~= split_lines(s).update(
                        split_lines(s).len() - 1,
                        split_lines(s).last().push(c),
                    ));
                } else {
                    assert(rest2[0] == rest[0]);
                    assert(rest2.skip(1) =~~= rest.skip(1).update(
                        rest.len() - 2,
                        rest.last().push(c),
                    ));
                    assert(split_lines(s.push(c)) =~~= split_lines(s).update(
                        split_lines(s).len() - 1,
                        split_lines(s).last().push(c),
                    ));
                }
            }
        }
    }
}

/// Number of characters strictly before line `row` in the joined text: the
/// lengths of the first `row` lines, plus one for the newline after each.
pub open spec fn prefix_len(ls: Seq<Seq<char>>, row: int) -> int
    decreases row,
{
    if row <= 0 {
        0
    } else {
        prefix_len(ls, row - 1) + ls[row - 1].len() + 1
    }
}

/// The linear offset addressed by position (row, col).
pub open spec fn offset_of(ls: Seq<Seq<char>>, row: int, col: int) -> int {
    prefix_len(ls, row) + col
}

/// The position (row, col) addressed by a linear offset.
pub open spec fn decode(ls: Seq<Seq<char>>, off: int) -> (int, int)
    decreases ls.len(),
{
    if ls.len() <= 1 || off <= ls[0].len() {
        (0, off)
    } else {
        let rc = decode(ls.skip(1), off - ls[0].len() - 1);
        (rc.0 + 1, rc.1)
    }
}

/// `prefix_len` counted from the second line onward.
pub proof fn lemma_prefix_len_skip(ls: Seq<Seq<char>>, row: int)
    requires
        1 <= row <= ls.len(),
    ensures
        prefix_len(ls, row) == ls[0].len() + 1 + prefix_len(ls.skip(1), row - 1),
    decreases row,
{
    assert(prefix_len(ls, 0) == 0);
    assert(prefix_len(ls.skip(1), 0) == 0);
    if row > 1 {
        lemma_prefix_len_skip(ls, row - 1);
        assert(ls.skip(1)[row - 2] == ls[row - 1]);
    }
}

/// The joined text ends exactly where the last line ends.
pub proof fn lemma_join_len(ls: Seq<Seq<char>>)
    requires
        ls.len() >= 1,
    ensures
        join_lines(ls).len() == prefix_len(ls, ls.len() - 1) + ls[ls.len() - 1].len(),
    decreases ls.len(),
{
    if ls.len() > 1 {
        lemma_join_len(ls.skip(1));
        lemma_prefix_len_skip(ls, ls.len() - 1);
        assert(ls.skip(1)[ls.len() - 2] == ls[ls.len() - 1]);
    }
}

/// `prefix_len` grows by at least one per line.
pub proof fn lemma_prefix_len_mono(ls: Seq<Seq<char>>, a: int, b: int)
    requires
        0 <= a <= b,
    ensures
        prefix_len(ls, a) + (b - a) <= prefix_len(ls, b),
    decreases b - a,
{
    if a < b {
        lemma_prefix_len_mono(ls, a, b - 1);
    }
}

/// Line `a` cannot begin before offset `a`: each earlier line takes at least
/// one offset unit.
pub proof fn lemma_prefix_len_at_least(ls: Seq<Seq<char>>, a: int)
    requires
        0 <= a,
    ensures
        prefix_len(ls, a) >= a,
{
    lemma_prefix_len_mono(ls, 0, a);
    assert(prefix_len(ls, 0) == 0);
}

/// A valid position addresses an offset within the joined text.
pub proof fn lemma_offset_in_join(ls: Seq<Seq<char>>, row: int, col: int)
    requires
        0 <= row < ls.len(),
        0 <= col <= ls[row].len(),
    ensures
        0 <= offset_of(ls, row, col) <= join_lines(ls).len(),
{
    lemma_join_len(ls);
    lemma_prefix_len_at_least(ls, row);
    if row < ls.len() - 1 {
        lemma_prefix_len_mono(ls, row + 1, ls.len() - 1);
        assert(prefix_len(ls, row + 1) == prefix_len(ls, row) + ls[row].len() + 1);
    }
}

/// Every line, and the line count less one, fit within the joined text's
/// length.
pub proof fn lemma_line_len_le_join(ls: Seq<Seq<char>>, i: int)
    requires
        0 <= i < ls.len(),
    ensures
        ls[i].len() <= join_lines(ls).len(),
        ls.len() - 1 <= join_lines(ls).len(),
{
    lemma_offset_in_join(ls, i, ls[i].len() as int);
    lemma_prefix_len_at_least(ls, i);
    lemma_join_len(ls);
    lemma_prefix_len_at_least(ls, ls.len() - 1);
}

/// Encoding a valid position as an offset and decoding it again yields the
/// same position: the two coordinate spaces agree.
pub proof fn lemma_decode_offset_of(ls: Seq<Seq<char>>, row: int, col: int)
    requires
        0 <= row < ls.len(),
        0 <= col <= ls[row].len(),
    ensures
        decode(ls, offset_of(ls, row, col)) == (row, col),
    decreases row,
{
    if row == 0 {
        assert(offset_of(ls, 0, col) == col);
    } else {
        lemma_prefix_len_mono(ls, 1, row);
        assert(prefix_len(ls, 0) == 0);
        assert(prefix_len(ls, 1) == ls[0].len() + 1);
        lemma_prefix_len_skip(ls, row);
        assert(ls.skip(1)[row - 1] == ls[row]);
        lemma_decode_offset_of(ls.skip(1), row - 1, col);
    }
}

/// Every offset within the joined text decodes to a valid position that
/// encodes back to the same offset.
pub proof fn lemma_decode_valid(ls: Seq<Seq<char>>, off: int)
    requires
        ls.len() >= 1,
        0 <= off <= join_lines(ls).len(),
    ensures
        ({
            let rc = decode(ls, off);
            &&& 0 <= rc.0 < ls.len()
            &&& 0 <= rc.1 <= ls[rc.0].len()
            &&& offset_of(ls, rc.0, rc.1) == off
        }),
    decreases ls.len(),
{
    if ls.len() == 1 {
        lemma_join_len(ls);
    } else if off <= ls[0].len() {
    } else {
        assert(join_lines(ls).len() == ls[0].len() + 1 + join_lines(ls.skip(1)).len());
        lemma_decode_valid(ls.skip(1), off - ls[0].len() - 1);
        let rc = decode(ls.skip(1), off - ls[0].len() - 1);
        assert(ls.skip(1)[rc.0] == ls[rc.0 + 1]);
        lemma_prefix_len_skip(ls, rc.0 + 1);
    }
}

/// Inserting a character at an offset and then deleting at the same offset
/// restores the original text exactly.
pub proof fn lemma_insert_delete_identity(s: Seq<char>, off: int, c: char)
    requires
        0 <= off <= s.len(),
    ensures
        s.insert(off, c).remove(off) == s,
{
    assert(s.insert(off, c).remove(off) =~= s);
}

} // verus!
