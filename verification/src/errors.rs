//! The closed error taxonomy of the calculator.

use vstd::prelude::*;

verus! {

/// Every way an evaluation can fail.  Each error is terminal for the
/// current call and is handed to the caller unchanged.
#[derive(Clone, Copy, Debug, PartialEq, Eq, Structural)]
pub enum CalculatorError {
    /// A scanned character is not a digit, `.`, an operator, a
    /// parenthesis, or whitespace.
    UnsupportedToken,
    /// A `)` has no matching `(`, or a `(` is never closed.
    MismatchedParantheses,
    /// A malformed numeral, missing operands, or an empty result stack.
    InvalidExpression,
    /// A numeral contains more than one `.`.
    InvalidDecimal,
    /// The divisor operand of `/` is zero.
    ZeroDivision,
}

impl CalculatorError {
    /// The fixed human-readable message for this error kind.
    pub fn message(&self) -> (r: &'static str)
        ensures
            r@ == self.spec_message(),
    {
        match self {
            CalculatorError::UnsupportedToken => "Error: The expression contains an unsupported token",
            CalculatorError::MismatchedParantheses => "Error: Mismatched parentheses — make sure every '(' has a matching ')'.",
            CalculatorError::InvalidExpression => "Error: The expression is invalid — it may be incomplete, malformed, or missing operands.",
            CalculatorError::InvalidDecimal => "Error: The expression contains an invalid decimal number. There are more than 1 '.' within a number.",
            CalculatorError::ZeroDivision => "Error: Trying to divide by 0 is mathematically undefeined.",
        }
    }

    /// The message each kind carries, as a sequence of characters.
    pub open spec fn spec_message(&self) -> Seq<char> {
        match self {
            CalculatorError::UnsupportedToken => "Error: The expression contains an unsupported token"@,
            CalculatorError::MismatchedParantheses => "Error: Mismatched parentheses — make sure every '(' has a matching ')'."@,
            CalculatorError::InvalidExpression => "Error: The expression is invalid — it may be incomplete, malformed, or missing operands."@,
            CalculatorError::InvalidDecimal => "Error: The expression contains an invalid decimal number. There are more than 1 '.' within a number."@,
            CalculatorError::ZeroDivision => "Error: Trying to divide by 0 is mathematically undefeined."@,
        }
    }
}

} // verus!
