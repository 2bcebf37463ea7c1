use vstd::prelude::*;

verus! {

/// Everything that can go wrong while reading or evaluating a line.
#[derive(Debug, PartialEq, Eq)]
pub enum LispError {
    /// A group was opened but the input ended before its closing parenthesis.
    UnterminatedGroup,
    /// A call named an operation that the environment does not hold.
    UnknownOperation(String),
    /// An operation received a number of arguments it does not accept.
    ArityMismatch,
    /// An operand evaluated to a kind of value the operation cannot use.
    TypeMismatch,
}

} // verus!
