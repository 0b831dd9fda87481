use vstd::prelude::*;

verus! {

/// A half-open byte range together with the matching half-open character
/// range of one substring of the input text.
#[derive(Copy, Clone, Debug, PartialEq, Eq, Structural)]
pub struct Span {
    pub byte_start: usize,
    pub byte_end: usize,
    pub char_start: usize,
    pub char_end: usize,
}

impl Span {
    /// Both ranges are well-formed half-open ranges.
    pub open spec fn wf(self) -> bool {
        self.byte_start <= self.byte_end && self.char_start <= self.char_end
    }
}

/// Two spans overlap when their byte ranges intersect.
pub open spec fn spec_overlap(a: Span, b: Span) -> bool {
    a.byte_start < b.byte_end && b.byte_start < a.byte_end
}

/// The byte range of `inner` lies fully inside the byte range of `outer`.
pub open spec fn spec_span_contains(outer: Span, inner: Span) -> bool {
    outer.byte_start <= inner.byte_start && inner.byte_end <= outer.byte_end
}

pub fn spans_overlap(a: &Span, b: &Span) -> (r: bool)
    ensures
        r == spec_overlap(*a, *b),
{
    a.byte_start < b.byte_end && b.byte_start < a.byte_end
}

pub fn span_contains(outer: &Span, inner: &Span) -> (r: bool)
    ensures
        r == spec_span_contains(*outer, *inner),
{
    outer.byte_start <= inner.byte_start && inner.byte_end <= outer.byte_end
}

} // verus!
