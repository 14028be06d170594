//! End-to-end evaluation: the verified conversion and decision machine,
//! driven with a plain floating-point value stack as the program drives
//! them.

use eval::calculator::Calculator;
use eval::errors::CalculatorError;
use eval::rpn::RpnEval;
use eval::tokens::BinOp;
use eval::tokens::Token;

fn eval_str(expr: &str) -> Result<f32, CalculatorError> {
    let mut calc = Calculator::new(expr.to_string());
    calc.tokenizer()?;
    let mut machine = RpnEval::new();
    let mut stack: Vec<f32> = Vec::new();
    for token in &calc.tokens {
        match token {
            Token::Number(n) => {
                let mut literal = String::new();
                if n.negative {
                    literal.push('-');
                }
                for c in &n.text {
                    literal.push(*c);
                }
                let value: f32 = literal.parse().map_err(|_| CalculatorError::InvalidExpression)?;
                machine.push_number();
                stack.push(value);
            }
            Token::Operation(op) => {
                let divisor_is_zero = stack.len() >= 2 && stack[stack.len() - 1] == 0.0;
                machine.apply(*op, divisor_is_zero)?;
                let b = stack.pop().unwrap();
                let a = stack.pop().unwrap();
                let out = match op {
                    BinOp::Add => a + b,
                    BinOp::Subtract => a - b,
                    BinOp::Multiply => a * b,
                    BinOp::Divide => a / b,
                };
                stack.push(out);
            }
        }
    }
    machine.finish()?;
    Ok(*stack.last().unwrap())
}

#[test]
fn precedence_binds_multiplication_first() {
    assert_eq!(eval_str("2+3*4"), Ok(14.0));
}

#[test]
fn parentheses_override_precedence() {
    assert_eq!(eval_str("(2+3)*4"), Ok(20.0));
}

#[test]
fn division_associates_left_to_right() {
    assert_eq!(eval_str("10/2/5"), Ok(1.0));
}

#[test]
fn subtraction_associates_left_to_right() {
    assert_eq!(eval_str("10-2-3"), Ok(5.0));
}

#[test]
fn trailing_multiplication() {
    assert_eq!(eval_str("2*3+4"), Ok(10.0));
}

#[test]
fn nested_parentheses() {
    assert_eq!(eval_str("((1+2)*(3+4))"), Ok(21.0));
}

#[test]
fn decimal_literals() {
    assert_eq!(eval_str("1.5*2"), Ok(3.0));
    assert_eq!(eval_str(".5+.5"), Ok(1.0));
    assert_eq!(eval_str("1/0.5"), Ok(2.0));
}

#[test]
fn second_dot_is_invalid_decimal() {
    assert_eq!(eval_str("3.5.2"), Err(CalculatorError::InvalidDecimal));
}

#[test]
fn dividing_by_zero_literal_fails() {
    assert_eq!(eval_str("5/0"), Err(CalculatorError::ZeroDivision));
}

#[test]
fn dividing_by_a_difference_of_zero_fails() {
    assert_eq!(eval_str("5/(3-3)"), Err(CalculatorError::ZeroDivision));
}

#[test]
fn unclosed_parenthesis_fails() {
    assert_eq!(eval_str("(1+2"), Err(CalculatorError::MismatchedParantheses));
}

#[test]
fn unopened_parenthesis_fails() {
    assert_eq!(eval_str("1+2)"), Err(CalculatorError::MismatchedParantheses));
}

#[test]
fn operator_without_operand_fails() {
    assert_eq!(eval_str("1+"), Err(CalculatorError::InvalidExpression));
}

#[test]
fn unsupported_character_fails() {
    assert_eq!(eval_str("1 $ 2"), Err(CalculatorError::UnsupportedToken));
}

#[test]
fn empty_expression_fails() {
    assert_eq!(eval_str(""), Err(CalculatorError::InvalidExpression));
}

#[test]
fn lone_dot_fails() {
    assert_eq!(eval_str("."), Err(CalculatorError::InvalidExpression));
}

#[test]
fn unary_minus_on_first_operand() {
    assert_eq!(eval_str("-2+3"), Ok(1.0));
}

#[test]
fn unary_minus_inside_parentheses() {
    assert_eq!(eval_str("(-2)*3"), Ok(-6.0));
}

#[test]
fn unary_minus_after_operator() {
    assert_eq!(eval_str("2--3"), Ok(5.0));
}

#[test]
fn minus_after_tab_is_binary() {
    assert_eq!(eval_str("1\t-2"), Ok(-1.0));
}

#[test]
fn minus_after_space_before_digit_is_unary() {
    // The space turns the minus unary: two numerals, no operator, and
    // the top of the value stack comes back.
    assert_eq!(eval_str("1 -2"), Ok(-2.0));
    assert_eq!(eval_str("1-2"), Ok(-1.0));
}

#[test]
fn residual_stack_returns_top_value() {
    // Two numerals with no operator: the top of the value stack comes
    // back, as the evaluation discipline states.
    assert_eq!(eval_str("1 2"), Ok(2.0));
}

#[test]
fn independent_instances_agree() {
    let first = eval_str("(8-3)*2+1");
    let second = eval_str("(8-3)*2+1");
    assert_eq!(first, Ok(11.0));
    assert_eq!(second, Ok(11.0));
}

#[test]
fn spaces_around_tokens_change_nothing() {
    assert_eq!(eval_str(" 2 + 3 * 4 "), Ok(14.0));
    assert_eq!(eval_str("2+3*4"), Ok(14.0));
    assert_eq!(eval_str("( 2 + 3 ) * 4"), Ok(20.0));
}

#[test]
fn unicode_whitespace_is_skipped() {
    assert_eq!(eval_str("1\u{a0}+\u{a0}2"), Ok(3.0));
    assert_eq!(eval_str("1\u{2003}+2"), Ok(3.0));
}
