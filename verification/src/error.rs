//! The ways in which converting a document can fail.

use vstd::prelude::*;

verus! {

/// Why a document, a coordinate or a text run was not converted.
#[derive(Clone, Copy, Debug, PartialEq, Eq, Structural)]
pub enum ConversionError {
    /// The scene holds no path node.
    NoPathFound,
    /// A text run has a colon but not the two characters of the `": "`
    /// delimiter's extent after the label.
    MalformedAnnotation,
    /// The label of a text run is not one of the known labels.
    UnknownAnnotationLabel,
    /// A point rounds to a negative grid coordinate.
    QuantizationDomainError,
    /// A coordinate is infinite or not a number.
    NonFiniteCoordinate,
    /// A coordinate is finite but too large in magnitude to be represented.
    CoordinateOutOfRange,
}

impl ConversionError {
    /// Whether the failure concerns a single text run, so that the run is left
    /// out and the conversion of the document goes on.
    pub open spec fn is_recoverable(self) -> bool {
        self == ConversionError::MalformedAnnotation || self
            == ConversionError::UnknownAnnotationLabel
    }

    /// Computes [`ConversionError::is_recoverable`].
    pub fn recoverable(&self) -> (r: bool)
        ensures
            r == self.is_recoverable(),
    {
        match self {
            ConversionError::MalformedAnnotation => true,
            ConversionError::UnknownAnnotationLabel => true,
            _ => false,
        }
    }
}

} // verus!
