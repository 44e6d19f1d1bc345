use vstd::prelude::*;

verus! {

/// The conditions under which a matrix or network operation refuses its input.
#[derive(Debug, Clone, Copy, PartialEq, Eq, Structural)]
pub enum NetworkError {
    /// Operand shapes violate an operation's precondition.
    ShapeMismatch,
    /// An input vector's length differs from the first layer's size.
    InputSizeMismatch,
    /// A target vector's length differs from the last layer's size.
    TargetSizeMismatch,
    /// The training inputs and targets differ in number.
    DatasetSizeMismatch,
}

} // verus!
