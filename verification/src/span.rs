use vstd::prelude::*;

pub use crate::source::SourceID;
use crate::source::{spec_line_col, SourceSpan, SourceStore};

verus! {

/// A byte offset into the contents of a source.
pub type ByteOffset = usize;

/// A range of bytes `[start, end)` in the source identified by `context`.
#[derive(Clone, Copy, Debug, PartialEq, Eq, Structural)]
pub struct SourceIDSpan {
    pub context: SourceID,
    pub start: ByteOffset,
    pub end: ByteOffset,
}

impl SourceIDSpan {
    /// Creates a span of the bytes `range` in the source `context`.
    pub fn new(context: SourceID, range: std::ops::Range<ByteOffset>) -> (span: SourceIDSpan)
        ensures
            span == (SourceIDSpan { context, start: range.start, end: range.end }),
    {
        SourceIDSpan { context, start: range.start, end: range.end }
    }

    /// The smallest span covering both spans, in the spec.
    pub open spec fn spec_union(self, other: SourceIDSpan) -> SourceIDSpan {
        SourceIDSpan {
            context: self.context,
            start: if self.start <= other.start { self.start } else { other.start },
            end: if self.end >= other.end { self.end } else { other.end },
        }
    }

    /// The smallest span covering both spans. Both spans must lie in the same source.
    pub fn union(&self, other: SourceIDSpan) -> (span: SourceIDSpan)
        requires
            self.context == other.context,
        ensures
            span == self.spec_union(other),
    {
        let start = if self.start <= other.start { self.start } else { other.start };
        let end = if self.end >= other.end { self.end } else { other.end };
        SourceIDSpan { context: self.context, start, end }
    }
}

/// Within one source, the union of two spans is the smallest span that covers both: it starts
/// where one of them starts, at or before both, and ends where one of them ends, at or after
/// both. It does not depend on their order or grouping, and a span united with itself is itself.
pub proof fn law_union(a: SourceIDSpan, b: SourceIDSpan, c: SourceIDSpan)
    requires
        a.context == b.context,
        b.context == c.context,
    ensures
        a.spec_union(b).context == a.context,
        a.spec_union(b).start <= a.start && a.spec_union(b).start <= b.start,
        a.spec_union(b).start == a.start || a.spec_union(b).start == b.start,
        a.spec_union(b).end >= a.end && a.spec_union(b).end >= b.end,
        a.spec_union(b).end == a.end || a.spec_union(b).end == b.end,
        a.spec_union(b) == b.spec_union(a),
        a.spec_union(b).spec_union(c) == a.spec_union(b.spec_union(c)),
        a.spec_union(a) == a,
{
}

/// A value together with the span of source it was produced from.
#[derive(Clone, Debug, PartialEq)]
pub struct SourceIDSpanned<T> {
    pub inner: T,
    pub span: SourceIDSpan,
}

/// Attaches `span` to `inner`.
pub fn with_span<T>(inner: T, span: SourceIDSpan) -> (spanned: SourceIDSpanned<T>)
    ensures
        spanned.inner == inner,
        spanned.span == span,
{
    SourceIDSpanned { inner, span }
}

/// A span together with the store of the sources it may lie in.
pub struct SourceIDSpanWithStore<'src> {
    pub span: SourceIDSpan,
    pub sources: &'src SourceStore,
}

impl<'src> SourceIDSpanWithStore<'src> {
    /// The span as lines and columns of its source, which must exist.
    pub fn source_span(&self) -> (mapped: SourceSpan<'src>)
        requires
            self.sources.spec_source(self.span.context as int) is Some,
            self.span.start < usize::MAX,
            self.span.end < usize::MAX,
        ensures
            self.sources.spec_source(self.span.context as int) == Some(*mapped.source),
            (mapped.start_line as int, mapped.start_col as int) == spec_line_col(mapped.source.breaks(), self.span.start as int),
            (mapped.end_line as int, mapped.end_col as int) == spec_line_col(mapped.source.breaks(), self.span.end as int),
    {
        self.sources.map_span(&self.span)
    }
}

} // verus!
