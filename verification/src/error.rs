use vstd::prelude::*;

verus! {

/// Why an operation of the router or of its arithmetic did not produce a value.
#[derive(Clone, Copy, Debug, PartialEq, Eq, Structural)]
pub enum RouterError {
    /// A division whose divisor is zero.
    DivideByZero,
    /// A result whose magnitude is larger than the numeric type can hold.
    Overflow,
    /// The minimizer gave up without a price vector.
    OptimizerFailure,
    /// A pool that does not hold exactly two distinct tokens with one reserve each.
    InvalidPool,
    /// A magnitude was asked of a negative value.
    NegativeValue,
}

} // verus!
