//! What every kind of load can tell about a span it acts on.

use vstd::prelude::*;
use crate::numbers::rational::Rational;
use crate::spans::span::{Span, SpanView};

verus! {

/// A load that knows the moments it causes at the two ends of a span.
pub trait LoadTraits {
    /// The fixed-end moment at the start of the span, as a real number.
    spec fn fem_a_value(&self, span: SpanView) -> real;

    /// The fixed-end moment at the end of the span, as a real number.
    spec fn fem_b_value(&self, span: SpanView) -> real;

    /// The fixed-end moment at the start of the span.
    fn fem_a(&self, span: &Span) -> (moment: Rational)
        ensures
            moment@ == self.fem_a_value(span@),
    ;

    /// The fixed-end moment at the end of the span.
    fn fem_b(&self, span: &Span) -> (moment: Rational)
        ensures
            moment@ == self.fem_b_value(span@),
    ;

    /// Both fixed-end moments, start first.
    fn fem(&self, span: &Span) -> (moments: [Rational; 2])
        ensures
            moments[0]@ == self.fem_a_value(span@),
            moments[1]@ == self.fem_b_value(span@),
    {
        [self.fem_a(span), self.fem_b(span)]
    }
}

} // verus!
