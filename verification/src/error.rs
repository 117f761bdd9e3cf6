use vstd::prelude::*;

verus! {

/// Failure of a matrix or vector operation.
#[derive(Debug, Clone, Copy, PartialEq, Eq, Structural)]
pub enum MatrixError {
    /// The operand shapes are incompatible: the vectors have different
    /// lengths, or the left operand's column count differs from the right
    /// operand's row count.
    DimensionMismatch,
}

/// Failure of a metrics operation.
#[derive(Debug, Clone, Copy, PartialEq, Eq, Structural)]
pub enum MetricsError {
    /// The named counter does not exist in this (fixed) metrics family.
    KeyNotFound,
}

} // verus!
