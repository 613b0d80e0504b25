//! The ways in which an operation of the library can fail.
use vstd::prelude::*;

verus! {

#[derive(Clone, Copy, Debug, PartialEq, Eq, Structural)]
pub enum CalcError {
    /// The text holds a character that starts no token.
    UnknownCharacter,
    /// A numeral does not fit in 64 bits.
    NumberTooLarge,
    /// The parser expected one token and found another.
    UnexpectedToken,
    /// The token sequence ended where more was expected.
    UnexpectedEnd,
    /// No function of this name takes this many arguments.
    UnknownFunction,
    /// A function of the same name and arity exists with another body.
    Conflict,
    /// A variable is not a parameter of the function it occurs in.
    UnknownVariable,
    /// There is no rule to differentiate a call or an equation.
    NoDerivativeRule,
    /// An equation has no numeric value.
    NoValue,
    /// A function was given a number of arguments other than its arity.
    ArityMismatch,
    /// A chain of calls is longer than the number of functions defined, so
    /// some function calls itself.
    CallCycle,
}

} // verus!
