use vstd::prelude::*;

verus! {

/// The ways in which an operation on a vector can be refused.
#[derive(Debug, Clone, Copy, PartialEq, Eq, Structural)]
pub enum VecError {
    /// The index addresses a bit or a counter beyond the vector's capacity.
    IndexOutOfRange,
    /// The two operands of a boolean operation differ in word count.
    LengthMismatch,
}

} // verus!
