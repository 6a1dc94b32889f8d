//! The ways in which an input can be unusable.
use vstd::prelude::*;

verus! {

/// Why an operation refused its input. A refusal is complete: the operation
/// has produced nothing else.
#[derive(Debug, Clone, Copy, PartialEq, Eq, Structural)]
pub enum InvalidInput {
    /// No sample was given to an operation that needs at least one.
    EmptySamples,
    /// Fewer than two samples were given to an operation that reads the
    /// second.
    TooFewSamples,
    /// A NaN or an infinity stands among numbers that have to be ordered.
    NonFinite,
    /// The abscissae and the ordinates of a curve differ in number.
    LengthMismatch,
    /// A bandwidth is zero, negative or NaN.
    NonPositiveBandwidth,
    /// A density is negative or NaN.
    NegativeDensity,
}

impl InvalidInput {
    /// The text of [`InvalidInput::message`].
    pub open spec fn text(self) -> Seq<char> {
        match self {
            InvalidInput::EmptySamples => "error: the sample set is empty"@,
            InvalidInput::TooFewSamples => "error: the sample set has fewer than two elements"@,
            InvalidInput::NonFinite => "error: a value to be ordered is NaN or infinite"@,
            InvalidInput::LengthMismatch => "error: xs and ys are not the same length"@,
            InvalidInput::NonPositiveBandwidth => "error: the bandwidth is not above zero"@,
            InvalidInput::NegativeDensity => "error: a density is below zero or NaN"@,
        }
    }

    /// A sentence that names the violated precondition.
    pub fn message(&self) -> (r: &'static str)
        ensures
            r@ == self.text(),
    {
        match self {
            InvalidInput::EmptySamples => "error: the sample set is empty",
            InvalidInput::TooFewSamples => "error: the sample set has fewer than two elements",
            InvalidInput::NonFinite => "error: a value to be ordered is NaN or infinite",
            InvalidInput::LengthMismatch => "error: xs and ys are not the same length",
            InvalidInput::NonPositiveBandwidth => "error: the bandwidth is not above zero",
            InvalidInput::NegativeDensity => "error: a density is below zero or NaN",
        }
    }
}

} // verus!
