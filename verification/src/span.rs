//! Byte positions and spans in the source text.
use vstd::prelude::*;

verus! {

/// A byte offset into the source text.
#[derive(Clone, Copy, Debug, PartialEq, Eq, Structural, Hash)]
pub struct BytePos(pub u32);

/// A range of bytes in the source text, `lo` never above `hi`.
#[derive(Clone, Copy, Debug, PartialEq, Eq, Structural, Hash)]
pub struct Span {
    pub lo: BytePos,
    pub hi: BytePos,
}

/// The span between two positions, whichever of them comes first.
pub open spec fn spec_span_new(a: u32, b: u32) -> Span {
    if a > b {
        Span { lo: BytePos(b), hi: BytePos(a) }
    } else {
        Span { lo: BytePos(a), hi: BytePos(b) }
    }
}

impl Span {
    pub open spec fn wf(self) -> bool {
        self.lo.0 <= self.hi.0
    }

    /// Builds the span between `lo` and `hi`, swapping them when they come
    /// in the wrong order.
    pub fn new(lo: BytePos, hi: BytePos) -> (r: Span)
        ensures
            r == spec_span_new(lo.0, hi.0),
            r.wf(),
    {
        if lo.0 > hi.0 {
            Span { lo: hi, hi: lo }
        } else {
            Span { lo, hi }
        }
    }

    pub fn lo(&self) -> (r: BytePos)
        ensures
            r == self.lo,
    {
        self.lo
    }

    pub fn hi(&self) -> (r: BytePos)
        ensures
            r == self.hi,
    {
        self.hi
    }
}

/// The span that stands for no place in the source.
pub fn dummy_span() -> (r: Span)
    ensures
        r == (Span { lo: BytePos(0), hi: BytePos(0) }),
{
    Span { lo: BytePos(0), hi: BytePos(0) }
}

/// A span between two positions is the same whichever of them is given
/// first.
pub proof fn lemma_span_new_symmetric(a: u32, b: u32)
    ensures
        spec_span_new(a, b) == spec_span_new(b, a),
        spec_span_new(a, b).wf(),
{
}

} // verus!
