use vstd::prelude::*;

verus! {

/// The kinds of failure of the fixed-point arithmetic and of the pool.
#[derive(Debug, Clone, Copy, PartialEq, Eq, Structural)]
pub enum Errors {
    /// A computed output that must not be negative came out negative.
    NegativeValue,
    /// Pool parameters that break the pool's invariants.
    InvalidArgument,
    /// A request that exceeds what the pool holds.
    InvalidOperation,
    /// An arithmetic result that does not fit its integer type.
    Overflow,
    /// A division by the zero value.
    DivisionByZero,
    /// A divisor whose reciprocal cannot be represented.
    DivisorTooLarge,
}

} // verus!
