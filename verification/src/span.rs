//! Half-open byte ranges of the source text, and their line and column.

use crate::text::{chars_of, Text};
use vstd::prelude::*;

verus! {

/// A half-open byte range `start..end` of a source string.
#[derive(Clone, Copy, Debug, PartialEq, Eq, Structural)]
pub struct Span {
    pub start: usize,
    pub end: usize,
}

impl Span {
    pub open spec fn make(start: int, end: int) -> Span {
        Span { start: start as usize, end: end as usize }
    }

    /// The span that belongs to no source text.
    pub open spec fn nowhere() -> Span {
        Span { start: 0, end: 0 }
    }

    /// The smallest span that covers both.
    pub open spec fn cover(self, other: Span) -> Span {
        Span {
            start: if self.start <= other.start {
                self.start
            } else {
                other.start
            },
            end: if self.end >= other.end {
                self.end
            } else {
                other.end
            },
        }
    }

    pub fn new(start: usize, end: usize) -> (r: Span)
        ensures
            r == (Span { start, end }),
    {
        Span { start, end }
    }

    /// A placeholder for diagnostics without a source location.
    pub fn dummy() -> (r: Span)
        ensures
            r == Span::nowhere(),
    {
        Span { start: 0, end: 0 }
    }

    /// The smallest span that covers `self` and `other`.
    pub fn merge(self, other: Span) -> (r: Span)
        ensures
            r == self.cover(other),
    {
        Span {
            start: if self.start <= other.start {
                self.start
            } else {
                other.start
            },
            end: if self.end >= other.end {
                self.end
            } else {
                other.end
            },
        }
    }
}

/// The number of bytes that `c` takes in UTF-8.
pub open spec fn char_bytes(c: char) -> int {
    let u = c as u32;
    if u < 0x80 {
        1
    } else if u < 0x800 {
        2
    } else if u < 0x10000 {
        3
    } else {
        4
    }
}

/// The line and column reached after walking the characters of `s` from
/// position `i` on, over at most `left` more bytes.
pub open spec fn walk(s: Text, i: int, left: int, line: nat, col: nat) -> (nat, nat)
    decreases s.len() - i,
{
    if i < 0 || i >= s.len() || left <= 0 {
        (line, col)
    } else if s[i] == '\n' {
        walk(s, i + 1, left - 1, line + 1, 1)
    } else {
        walk(s, i + 1, left - char_bytes(s[i]), line, col + 1)
    }
}

/// The 1-based line and column of the byte `offset` of `s`. Columns count
/// characters.
pub open spec fn position(s: Text, offset: int) -> (nat, nat) {
    walk(s, 0, offset, 1, 1)
}

pub(crate) fn char_width(c: char) -> (w: usize)
    ensures
        w == char_bytes(c),
        1 <= w <= 4,
{
    let u: u32 = c as u32;
    if u < 0x80 {
        1
    } else if u < 0x800 {
        2
    } else if u < 0x10000 {
        3
    } else {
        4
    }
}

/// `n`, or the largest count that there is.
pub open spec fn counted(n: nat) -> nat {
    if n <= usize::MAX {
        n
    } else {
        usize::MAX as nat
    }
}

fn count(n: u128) -> (r: usize)
    ensures
        r as nat == counted(n as nat),
{
    if n <= usize::MAX as u128 {
        n as usize
    } else {
        usize::MAX
    }
}

/// The 1-based line and column of a byte offset.
pub fn line_col(src: &str, offset: usize) -> (r: (usize, usize))
    ensures
        r.0 as nat == counted(position(src@, offset as int).0),
        r.1 as nat == counted(position(src@, offset as int).1),
        src@.len() < usize::MAX ==> (r.0 as nat, r.1 as nat) == position(src@, offset as int),
{
    let (line, col) = locate(src, offset);
    (count(line), count(col))
}

pub(crate) fn locate(src: &str, offset: usize) -> (r: (u128, u128))
    ensures
        (r.0 as nat, r.1 as nat) == position(src@, offset as int),
        1 <= r.0 <= src@.len() + 1,
        1 <= r.1 <= src@.len() + 1,
{
    let s = chars_of(src);
    let mut i: usize = 0;
    let mut left: usize = offset;
    let mut line: u128 = 1;
    let mut col: u128 = 1;
    while i < s.len() && left > 0
        invariant
            i <= s.len(),
            s@ == src@,
            1 <= line <= i + 1,
            1 <= col <= i + 1,
            position(src@, offset as int) == walk(
                src@,
                i as int,
                left as int,
                line as nat,
                col as nat,
            ),
        decreases s.len() - i,
    {
        let c = s[i];
        if c == '\n' {
            line = line + 1;
            col = 1;
            left = left - 1;
        } else {
            let w = char_width(c);
            col = col + 1;
            proof {
                lemma_walk_spent(src@, i as int + 1, left - w, line as nat, col as nat);
            }
            if w >= left {
                left = 0;
            } else {
                left = left - w;
            }
        }
        i += 1;
    }
    (line, col)
}

proof fn lemma_walk_spent(s: Text, i: int, left: int, line: nat, col: nat)
    ensures
        left <= 0 ==> walk(s, i, left, line, col) == walk(s, i, 0, line, col),
{
}

} // verus!
