//! Text offsets and ranges in a source file.
use vstd::prelude::*;

verus! {

/// A half-open range `start..end` of byte offsets in a source text.
#[derive(Clone, Copy, Debug, PartialEq, Eq)]
pub struct TextRange {
    start: u32,
    end: u32,
}

impl TextRange {
    /// Start and end are ordered.
    #[verifier::type_invariant]
    spec fn ordered(self) -> bool {
        self.start <= self.end
    }

    pub closed spec fn start_spec(self) -> u32 {
        self.start
    }

    pub closed spec fn end_spec(self) -> u32 {
        self.end
    }

    /// The empty range at `offset`.
    pub closed spec fn empty_spec(offset: u32) -> TextRange {
        TextRange { start: offset, end: offset }
    }

    /// The smallest range that contains both `self` and `other`.
    pub closed spec fn cover_spec(self, other: TextRange) -> TextRange {
        TextRange { start: min(self.start, other.start), end: max(self.end, other.end) }
    }

    /// The number of bytes in the range.
    pub open spec fn len_spec(self) -> int {
        self.end_spec() - self.start_spec()
    }

    /// Where the empty range starts and ends.
    pub proof fn lemma_empty(offset: u32)
        ensures
            Self::empty_spec(offset).start_spec() == offset,
            Self::empty_spec(offset).end_spec() == offset,
    {
    }

    /// Where a cover starts and ends.
    pub proof fn lemma_cover(self, other: TextRange)
        ensures
            self.cover_spec(other).start_spec() == min(self.start_spec(), other.start_spec()),
            self.cover_spec(other).end_spec() == max(self.end_spec(), other.end_spec()),
    {
    }

    /// Builds the range `start..end`.
    pub fn new(start: u32, end: u32) -> (r: TextRange)
        requires
            start <= end,
        ensures
            r.start_spec() == start,
            r.end_spec() == end,
    {
        TextRange { start, end }
    }

    /// The empty range at `offset`.
    pub fn empty(offset: u32) -> (r: TextRange)
        ensures
            r == Self::empty_spec(offset),
            r.start_spec() == offset,
            r.end_spec() == offset,
    {
        TextRange { start: offset, end: offset }
    }

    pub fn start(&self) -> (r: u32)
        ensures
            r == self.start_spec(),
    {
        self.start
    }

    pub fn end(&self) -> (r: u32)
        ensures
            r == self.end_spec(),
    {
        self.end
    }

    /// The number of bytes in the range.
    pub fn len(&self) -> (r: u32)
        ensures
            r == self.end_spec() - self.start_spec(),
    {
        proof {
            use_type_invariant(self);
        }
        self.end - self.start
    }

    /// The smallest range that contains both `self` and `other`.
    pub fn cover(&self, other: TextRange) -> (r: TextRange)
        ensures
            r == self.cover_spec(other),
            r.start_spec() == min(self.start_spec(), other.start_spec()),
            r.end_spec() == max(self.end_spec(), other.end_spec()),
    {
        proof {
            use_type_invariant(self);
            use_type_invariant(other);
        }
        let start = if self.start <= other.start { self.start } else { other.start };
        let end = if self.end >= other.end { self.end } else { other.end };
        TextRange { start, end }
    }
}

pub open spec fn min(a: u32, b: u32) -> u32 {
    if a <= b { a } else { b }
}

pub open spec fn max(a: u32, b: u32) -> u32 {
    if a >= b { a } else { b }
}

} // verus!
