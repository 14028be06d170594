//! A verified arithmetic-expression calculator.
//!
//! An expression string such as `"(2+3)*4"` is tokenized and converted to
//! postfix (RPN) order by a shunting-yard pass, and an RPN stack machine
//! tracks the evaluation discipline.  Every step of that pipeline is
//! specified and proved here; only the floating-point arithmetic itself
//! lives outside the verified library.

pub mod calculator;
pub mod chars;
pub mod errors;
pub mod laws;
pub mod rpn;
pub mod tokens;
