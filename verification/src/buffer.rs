//! The editable text buffer: a mutable character sequence with
//! offset-addressed insertion and deletion and an on-demand line
//! decomposition.

use vstd::prelude::*;

use crate::text::{join_lines, lemma_split_join_roundtrip, lemma_split_lines_nonempty,
    lemma_split_lines_push, split_lines};

verus! {

/// Error returned by `TextBuffer::delete` when the offset does not address a
/// character of the buffer.
#[derive(Clone, Copy, PartialEq, Eq, Structural, Debug)]
pub struct OutOfRange;

/// The character sequences of a vector of lines.
pub open spec fn lines_view(ls: Seq<Vec<char>>) -> Seq<Seq<char>> {
    ls.map_values(|l: Vec<char>| l@)
}

/// In-memory editable text. The content is a flat character sequence;
/// the line decomposition is recomputed on demand, never cached.
pub struct TextBuffer {
    content: Vec<char>,
}

impl View for TextBuffer {
    type V = Seq<char>;

    closed spec fn view(&self) -> Seq<char> {
        self.content@
    }
}

impl TextBuffer {
    /// A buffer holding the given initial content.
    pub fn new(content: Vec<char>) -> (b: TextBuffer)
        ensures
            b@ == content@,
    {
        TextBuffer { content }
    }

    /// Total character count, newlines included.
    pub fn length(&self) -> (n: usize)
        ensures
            n == self@.len(),
    {
        self.content.len()
    }

    /// A copy of the full character sequence.
    pub fn chars(&self) -> (r: Vec<char>)
        ensures
            r@ == self@,
    {
        let mut r: Vec<char> = Vec::new();
        let mut i: usize = 0;
        while i < self.content.len()
            invariant
                i <= self.content.len(),
                r@ == self.content@.take(i as int),
            decreases self.content.len() - i,
        {
            r.push(self.content[i]);
            i = i + 1;
            proof {
                assert(r@ =~= self.content@.take(i as int));
            }
        }
        proof {
            assert(self.content@.take(self.content@.len() as int) =~= self.content@);
        }
        r
    }

    /// Inserts one character before `offset`; every offset at or past it
    /// shifts up by one. An offset past the end is a caller error, not a
    /// recoverable condition.
    pub fn insert(&mut self, offset: usize, c: char)
        requires
            offset <= old(self)@.len(),
        ensures
            final(self)@ == old(self)@.insert(offset as int, c),
    {
        self.content.insert(offset, c);
    }

    /// Removes and returns the character at `offset`; fails with
    /// `OutOfRange`, leaving the buffer unchanged, exactly when the offset
    /// does not address a character.
    pub fn delete(&mut self, offset: usize) -> (r: Result<char, OutOfRange>)
        ensures
            offset < old(self)@.len() ==> {
                &&& r == Ok::<char, OutOfRange>(old(self)@[offset as int])
                &&& final(self)@ == old(self)@.remove(offset as int)
            },
            offset >= old(self)@.len() ==> {
                &&& r == Err::<char, OutOfRange>(OutOfRange)
                &&& final(self)@ == old(self)@
            },
    {
        if offset < self.content.len() {
            Ok(self.content.remove(offset))
        } else {
            Err(OutOfRange)
        }
    }

    /// The line decomposition of the content, split at every newline. A
    /// trailing newline yields a final empty line, so the result always
    /// holds at least one line, and joining it with newlines reconstructs
    /// the content exactly.
    pub fn lines(&self) -> (r: Vec<Vec<char>>)
        ensures
            lines_view(r@) == split_lines(self@),
            r@.len() >= 1,
            join_lines(lines_view(r@)).len() == self@.len(),
            self@.len() <= usize::MAX,
    {
        let mut acc: Vec<Vec<char>> = Vec::new();
        let mut cur: Vec<char> = Vec::new();
        let mut i: usize = 0;
        while i < self.content.len()
            invariant
                i <= self.content.len(),
                lines_view(acc@).push(cur@) == split_lines(self.content@.take(i as int)),
            decreases self.content.len() - i,
        {
            let c = self.content[i];
            proof {
                lemma_split_lines_push(self.content@.take(i as int), c);
                assert(self.content@.take(i + 1 as int) =~=
                    self.content@.take(i as int).push(c));
                lemma_split_lines_nonempty(self.content@.take(i as int));
            }
            if c == '\n' {
                acc.push(cur);
                cur = Vec::new();
                proof {
                    assert(lines_view(acc@).push(cur@) =~~=
                        split_lines(self.content@.take(i + 1 as int)));
                }
            } else {
                cur.push(c);
                proof {
                    assert(lines_view(acc@).push(cur@) =~~=
                        split_lines(self.content@.take(i + 1 as int)));
                }
            }
            i = i + 1;
        }
        acc.push(cur);
        proof {
            assert(self.content@.take(self.content@.len() as int) =~= self.content@);
            assert(lines_view(acc@) =~~= split_lines(self@));
            lemma_split_join_roundtrip(self@);
        }
        acc
    }
}

} // verus!
