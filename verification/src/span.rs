use vstd::prelude::*;

verus! {

/// A zero-based row/column position inside a document.
#[derive(Debug, Clone, Copy, PartialEq, Eq, Structural, PartialOrd, Ord, Hash)]
pub struct TextPoint {
    /// Zero-based line number.
    pub row: usize,
    /// Zero-based byte column within the line.
    pub column: usize,
}

/// A byte range plus the matching start and end points.
#[derive(Debug, Clone, Copy, PartialEq, Eq, Structural, PartialOrd, Ord, Hash)]
pub struct TextSpan {
    /// Inclusive start byte offset.
    pub start_byte: usize,
    /// Exclusive end byte offset.
    pub end_byte: usize,
    /// Start position.
    pub start_point: TextPoint,
    /// End position.
    pub end_point: TextPoint,
}

/// Whether `inner` lies within `outer` by byte offsets.
pub open spec fn spec_span_within(outer: TextSpan, inner: TextSpan) -> bool {
    outer.start_byte <= inner.start_byte && inner.end_byte <= outer.end_byte
}

/// Returns whether `inner` lies within `outer` by byte offsets.
pub fn span_within(outer: TextSpan, inner: TextSpan) -> (r: bool)
    ensures
        r == spec_span_within(outer, inner),
{
    outer.start_byte <= inner.start_byte && inner.end_byte <= outer.end_byte
}

} // verus!
