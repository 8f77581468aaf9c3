use vstd::prelude::*;

verus! {

/// The ways an operation of this library refuses its input.
#[derive(Debug, Clone, Copy, PartialEq, Eq, Structural)]
pub enum Error {
    /// A field, a row or a kernel without any sample, or a kernel size of zero.
    EmptyInput,
    /// Rows of unequal length, or a kernel too large for the field it is applied to.
    ShapeMismatch,
    /// An inverse transform asked of a sequence whose length is not a power of two.
    LengthConstraint,
}

} // verus!
