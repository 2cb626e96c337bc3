use vstd::prelude::*;

verus! {

/// A half-open interval `[start, end)` of byte offsets into one source text.
#[derive(Debug, Copy, Clone, PartialEq, Eq, Structural)]
pub struct Span {
    pub start: usize,
    pub end: usize,
}

impl Span {
    /// The number of bytes the interval covers; an inverted pair covers none.
    pub open spec fn spec_len(self) -> nat {
        if self.start <= self.end {
            (self.end - self.start) as nat
        } else {
            0
        }
    }

    /// An interval is well formed when it does not end before it starts.
    pub open spec fn wf(self) -> bool {
        self.start <= self.end
    }

    /// The interval from `start` up to `end`.
    pub fn new(start: usize, end: usize) -> (s: Self)
        ensures
            s.start == start,
            s.end == end,
    {
        Self { start, end }
    }

    /// The number of bytes covered.
    pub fn len(&self) -> (n: usize)
        ensures
            n == self.spec_len(),
    {
        if self.start <= self.end {
            self.end - self.start
        } else {
            0
        }
    }

    /// Tells whether no byte is covered.
    pub fn is_empty(&self) -> (b: bool)
        ensures
            b == (self.spec_len() == 0),
            b == (self.end <= self.start),
    {
        self.len() == 0
    }
}

} // verus!
