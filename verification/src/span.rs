//! Half-open byte ranges into a source text.

use vstd::prelude::*;

verus! {

/// The half-open byte range `[start, end)` of a source text.
#[derive(Clone, Copy, Debug, PartialEq, Eq, Structural)]
pub struct Span {
    pub start: usize,
    pub end: usize,
}

impl Span {
    /// The range lies inside a source of `len` bytes.
    pub open spec fn within(self, len: int) -> bool {
        0 <= self.start <= self.end <= len
    }

    /// The range `[start, end)`.
    pub fn new(start: usize, end: usize) -> (s: Span)
        ensures
            s.start == start,
            s.end == end,
    {
        Span { start, end }
    }

    /// The number of bytes in a well-ordered range, zero otherwise.
    pub fn len(&self) -> (n: usize)
        ensures
            n == if self.end >= self.start { self.end - self.start } else { 0 },
    {
        if self.end >= self.start {
            self.end - self.start
        } else {
            0
        }
    }
}

} // verus!
