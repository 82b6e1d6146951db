//! Spans on a timeline, in milliseconds.
use vstd::prelude::*;

verus! {

/// Half-open interval `[start, end)` on a timeline, in milliseconds.
#[derive(Clone, Copy, Debug, PartialEq, Eq)]
pub struct Span {
    pub start: u64,
    pub end: u64,
}

/// Length of `[s, e)`, zero when the interval is empty or inverted.
pub open spec fn len_of(s: u64, e: u64) -> int {
    if e > s { e - s } else { 0 }
}

impl Span {
    pub fn new(start: u64, end: u64) -> (r: Span)
        ensures
            r.start == start,
            r.end == end,
    {
        Span { start, end }
    }

    /// Duration of the span; an inverted span has duration zero.
    pub fn duration(&self) -> (d: u64)
        ensures
            d == len_of(self.start, self.end),
    {
        if self.end > self.start { self.end - self.start } else { 0 }
    }
}

} // verus!
