//! The conversion stage on its own: token order, numeral texts, and the
//! error messages.

use eval::calculator::Calculator;
use eval::errors::CalculatorError;
use eval::tokens::BinOp;
use eval::tokens::Numeral;
use eval::tokens::Token;

fn tokens_of(expr: &str) -> Vec<Token> {
    let mut calc = Calculator::new(expr.to_string());
    assert_eq!(calc.tokenizer(), Ok(()));
    calc.tokens
}

fn number(negative: bool, text: &str) -> Token {
    Token::Number(Numeral { negative, text: text.chars().collect() })
}

#[test]
fn increasing_precedence_keeps_operand_order_and_reverses_operators() {
    // The round-trip shape: operands in original order, then the
    // operators in reverse.
    assert_eq!(
        tokens_of("1+2*3"),
        vec![
            number(false, "1"),
            number(false, "2"),
            number(false, "3"),
            Token::Operation(BinOp::Multiply),
            Token::Operation(BinOp::Add),
        ]
    );
}

#[test]
fn equal_precedence_emits_left_operator_first() {
    assert_eq!(
        tokens_of("1-2+3"),
        vec![
            number(false, "1"),
            number(false, "2"),
            Token::Operation(BinOp::Subtract),
            number(false, "3"),
            Token::Operation(BinOp::Add),
        ]
    );
}

#[test]
fn parentheses_flush_pending_operators() {
    assert_eq!(
        tokens_of("(2+3)*4"),
        vec![
            number(false, "2"),
            number(false, "3"),
            Token::Operation(BinOp::Add),
            number(false, "4"),
            Token::Operation(BinOp::Multiply),
        ]
    );
}

#[test]
fn unary_minus_becomes_a_negative_numeral() {
    assert_eq!(
        tokens_of("-2+3"),
        vec![number(true, "2"), number(false, "3"), Token::Operation(BinOp::Add)]
    );
}

#[test]
fn minus_between_operands_is_an_operator() {
    assert_eq!(
        tokens_of("1-2"),
        vec![number(false, "1"), number(false, "2"), Token::Operation(BinOp::Subtract)]
    );
}

#[test]
fn numeral_text_keeps_its_dot() {
    assert_eq!(tokens_of("3.5"), vec![number(false, "3.5")]);
}

#[test]
fn empty_expression_converts_to_no_tokens() {
    assert_eq!(tokens_of(""), Vec::<Token>::new());
    assert_eq!(tokens_of("   "), Vec::<Token>::new());
}

#[test]
fn conversion_is_deterministic() {
    assert_eq!(tokens_of("(1+2)*3.5"), tokens_of("(1+2)*3.5"));
}

#[test]
fn each_error_kind_has_its_message() {
    assert_eq!(
        CalculatorError::UnsupportedToken.message(),
        "Error: The expression contains an unsupported token"
    );
    assert_eq!(
        CalculatorError::MismatchedParantheses.message(),
        "Error: Mismatched parentheses — make sure every '(' has a matching ')'."
    );
    assert_eq!(
        CalculatorError::InvalidExpression.message(),
        "Error: The expression is invalid — it may be incomplete, malformed, or missing operands."
    );
    assert_eq!(
        CalculatorError::InvalidDecimal.message(),
        "Error: The expression contains an invalid decimal number. There are more than 1 '.' within a number."
    );
    assert_eq!(
        CalculatorError::ZeroDivision.message(),
        "Error: Trying to divide by 0 is mathematically undefeined."
    );
}

#[test]
fn second_dot_fails_during_conversion() {
    let mut calc = Calculator::new("3.5.2+1".to_string());
    assert_eq!(calc.tokenizer(), Err(CalculatorError::InvalidDecimal));
}

#[test]
fn unsupported_character_fails_during_conversion() {
    let mut calc = Calculator::new("1 # 2".to_string());
    assert_eq!(calc.tokenizer(), Err(CalculatorError::UnsupportedToken));
}
