//! The decision discipline of RPN evaluation.
//!
//! Evaluating an RPN token sequence runs a value stack: a number token
//! pushes one value, an operator pops two and pushes one.  Which step
//! fails, and with which error, depends only on the stack's depth, the
//! operator, and whether a divisor is zero — never on the values
//! themselves.  [`RpnEval`] tracks exactly that, so every decision of
//! the evaluation loop is made and proved here; the caller holds the
//! values and reports only whether a divisor was zero.

use vstd::prelude::*;
use crate::errors::CalculatorError;
use crate::tokens::BinOp;

verus! {

/// What one evaluation step must yield: the error an RPN stack machine
/// raises at an operator, if any.  Too few operands is an invalid
/// expression; dividing by zero is reported, never computed.
pub open spec fn apply_outcome(depth: nat, op: BinOp, divisor_is_zero: bool) -> Result<
    (),
    CalculatorError,
> {
    if depth < 2 {
        Err(CalculatorError::InvalidExpression)
    } else if op is Divide && divisor_is_zero {
        Err(CalculatorError::ZeroDivision)
    } else {
        Ok(())
    }
}

/// What finishing must yield: an empty stack after all tokens is an
/// invalid expression; otherwise the top value is the result.
pub open spec fn finish_outcome(depth: nat) -> Result<(), CalculatorError> {
    if depth == 0 {
        Err(CalculatorError::InvalidExpression)
    } else {
        Ok(())
    }
}

/// The depth of an RPN evaluation's value stack.
pub struct RpnEval {
    pub depth: usize,
}

impl RpnEval {
    /// A fresh evaluation: the value stack is empty.
    pub fn new() -> (r: RpnEval)
        ensures
            r.depth == 0,
    {
        RpnEval { depth: 0 }
    }

    /// A number token pushes one value.
    pub fn push_number(&mut self)
        requires
            old(self).depth < usize::MAX,
        ensures
            final(self).depth == old(self).depth + 1,
    {
        self.depth = self.depth + 1;
    }

    /// An operator token pops two values and pushes their result, or
    /// raises exactly the error [`apply_outcome`] says.  `divisor_is_zero`
    /// reports whether the more recently pushed operand of a division is
    /// zero; for other operators it is ignored.
    pub fn apply(&mut self, op: BinOp, divisor_is_zero: bool) -> (r: Result<(), CalculatorError>)
        ensures
            r == apply_outcome(old(self).depth as nat, op, divisor_is_zero),
            r is Ok ==> final(self).depth == old(self).depth - 1,
            r is Err ==> final(self).depth == old(self).depth,
    {
        if self.depth < 2 {
            return Err(CalculatorError::InvalidExpression);
        }
        if matches!(op, BinOp::Divide) && divisor_is_zero {
            return Err(CalculatorError::ZeroDivision);
        }
        self.depth = self.depth - 1;
        Ok(())
    }

    /// After the last token, the result is the top of the stack; an
    /// empty stack raises exactly the error [`finish_outcome`] says.
    pub fn finish(&self) -> (r: Result<(), CalculatorError>)
        ensures
            r == finish_outcome(self.depth as nat),
    {
        if self.depth == 0 {
            return Err(CalculatorError::InvalidExpression);
        }
        Ok(())
    }
}

} // verus!
