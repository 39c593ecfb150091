//! Source positions and values tagged with them.

use vstd::prelude::*;

verus! {

/// A half-open range of byte offsets into a source text.
#[derive(Debug, Clone, Copy, PartialEq, Eq, PartialOrd, Hash, Structural)]
pub struct SimpleSpan {
    pub start: usize,
    pub end: usize,
}

impl SimpleSpan {
    /// The span from `start` up to `end`.
    pub fn new(start: usize, end: usize) -> (r: SimpleSpan)
        ensures
            r == (SimpleSpan { start, end }),
    {
        SimpleSpan { start, end }
    }
}

/// The span that synthesised nodes carry when no source position applies.
pub open spec fn zero_span() -> SimpleSpan {
    SimpleSpan { start: 0, end: 0 }
}

/// A value together with the source range it came from.
#[derive(Debug, Clone, PartialEq, PartialOrd)]
pub struct Spanned<T> {
    pub inner: T,
    pub span: SimpleSpan,
}

impl<T: DeepView> DeepView for Spanned<T> {
    type V = Spanned<T::V>;

    open spec fn deep_view(&self) -> Spanned<T::V> {
        Spanned { inner: self.inner.deep_view(), span: self.span }
    }
}

/// Attaching a span to any value.
pub trait SpanWrap: Sized {
    fn with_span(self, span: SimpleSpan) -> (r: Spanned<Self>)
        ensures
            r == (Spanned { inner: self, span }),
    ;
}

impl<T> SpanWrap for T {
    fn with_span(self, span: SimpleSpan) -> (r: Spanned<T>) {
        Spanned { inner: self, span }
    }
}

} // verus!
