//! The evaluation decision machine on its own.

use eval::errors::CalculatorError;
use eval::rpn::RpnEval;
use eval::tokens::BinOp;

#[test]
fn operator_needs_two_operands() {
    let mut machine = RpnEval::new();
    machine.push_number();
    assert_eq!(machine.apply(BinOp::Add, false), Err(CalculatorError::InvalidExpression));
    assert_eq!(machine.depth, 1);
}

#[test]
fn division_by_zero_is_reported() {
    let mut machine = RpnEval::new();
    machine.push_number();
    machine.push_number();
    assert_eq!(machine.apply(BinOp::Divide, true), Err(CalculatorError::ZeroDivision));
    assert_eq!(machine.depth, 2);
}

#[test]
fn division_by_nonzero_proceeds() {
    let mut machine = RpnEval::new();
    machine.push_number();
    machine.push_number();
    assert_eq!(machine.apply(BinOp::Divide, false), Ok(()));
    assert_eq!(machine.depth, 1);
}

#[test]
fn zero_only_matters_for_division() {
    let mut machine = RpnEval::new();
    machine.push_number();
    machine.push_number();
    assert_eq!(machine.apply(BinOp::Subtract, true), Ok(()));
    assert_eq!(machine.depth, 1);
}

#[test]
fn finishing_with_an_empty_stack_fails() {
    let machine = RpnEval::new();
    assert_eq!(machine.finish(), Err(CalculatorError::InvalidExpression));
}

#[test]
fn finishing_with_a_value_succeeds() {
    let mut machine = RpnEval::new();
    machine.push_number();
    assert_eq!(machine.finish(), Ok(()));
}
