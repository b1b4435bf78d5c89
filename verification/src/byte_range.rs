//! Half-open byte ranges over a source buffer.

use vstd::prelude::*;

verus! {

/// Byte range `[start, end)`: a half-open interval over byte offsets.
#[derive(Debug, Clone, Copy, PartialEq, Eq, Hash, Structural)]
pub struct ByteRange {
    /// Inclusive start offset.
    pub start: u32,
    /// Exclusive end offset.
    pub end: u32,
}

impl ByteRange {
    /// A range is well formed when it does not run backwards.
    pub open spec fn wf(self) -> bool {
        self.start <= self.end
    }

    /// Creates a new byte range; `start` must not exceed `end`.
    pub fn new(start: u32, end: u32) -> (r: Self)
        requires
            start <= end,
        ensures
            r.start == start,
            r.end == end,
            r.wf(),
    {
        ByteRange { start, end }
    }

    /// Returns `true` if `self` fully contains `other`.
    pub fn contains_range(self, other: Self) -> (r: bool)
        ensures
            r == (self.start <= other.start && other.end <= self.end),
    {
        self.start <= other.start && self.end >= other.end
    }

    /// Returns `true` if the two ranges have a non-zero intersection.
    pub fn overlaps(self, other: Self) -> (r: bool)
        ensures
            r == (spec_max(self.start as int, other.start as int) < spec_min(
                self.end as int,
                other.end as int,
            )),
    {
        let lo = if self.start >= other.start {
            self.start
        } else {
            other.start
        };
        let hi = if self.end <= other.end {
            self.end
        } else {
            other.end
        };
        lo < hi
    }
}

/// The larger of two integers.
pub open spec fn spec_max(a: int, b: int) -> int {
    if a >= b {
        a
    } else {
        b
    }
}

/// The smaller of two integers.
pub open spec fn spec_min(a: int, b: int) -> int {
    if a <= b {
        a
    } else {
        b
    }
}

/// Converts a `usize` to `u32`; the value must fit (source files are
/// assumed to be smaller than 4 GiB).
pub fn to_u32(v: usize) -> (r: u32)
    requires
        v <= u32::MAX,
    ensures
        r == v,
{
    v as u32
}

/// Overlap is symmetric: `a` overlaps `b` exactly when `b` overlaps `a`.
pub proof fn lemma_overlaps_symmetric(a: ByteRange, b: ByteRange)
    ensures
        (spec_max(a.start as int, b.start as int) < spec_min(a.end as int, b.end as int)) == (
        spec_max(b.start as int, a.start as int) < spec_min(b.end as int, a.end as int)),
{
}

/// An empty range overlaps nothing.
pub proof fn lemma_empty_overlaps_nothing(a: ByteRange, e: ByteRange)
    requires
        e.start == e.end,
    ensures
        !(spec_max(a.start as int, e.start as int) < spec_min(a.end as int, e.end as int)),
{
}

/// Containment is reflexive and transitive.
pub proof fn lemma_contains_reflexive_transitive(a: ByteRange, b: ByteRange, c: ByteRange)
    ensures
        a.start <= a.start && a.end <= a.end,
        (a.start <= b.start && b.end <= a.end && b.start <= c.start && c.end <= b.end) ==> (
        a.start <= c.start && c.end <= a.end),
{
}

} // verus!
