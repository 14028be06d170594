//! Tokens of the postfix (RPN) sequence that conversion produces and
//! evaluation consumes.

use vstd::prelude::*;
use crate::chars::dots;
use crate::chars::has_digit;
use crate::chars::is_num_char;

verus! {

/// The four binary operators.
#[derive(Clone, Copy, Debug, PartialEq, Eq, Structural)]
pub enum BinOp {
    Add,
    Subtract,
    Multiply,
    Divide,
}

impl BinOp {
    /// The binding strength of this operator: `*` and `/` bind tighter
    /// than `+` and `-`.
    pub open spec fn spec_precedence(self) -> int {
        match self {
            BinOp::Add => 1,
            BinOp::Subtract => 1,
            BinOp::Multiply => 2,
            BinOp::Divide => 2,
        }
    }

    /// Computes [`BinOp::spec_precedence`].
    pub fn precedence(self) -> (r: u8)
        ensures
            r as int == self.spec_precedence(),
    {
        match self {
            BinOp::Add => 1,
            BinOp::Subtract => 1,
            BinOp::Multiply => 2,
            BinOp::Divide => 2,
        }
    }

    /// The character that denotes this operator.
    pub open spec fn spec_char(self) -> char {
        match self {
            BinOp::Add => '+',
            BinOp::Subtract => '-',
            BinOp::Multiply => '*',
            BinOp::Divide => '/',
        }
    }

    /// The operator a character denotes, if any.
    pub open spec fn spec_of_char(c: char) -> Option<BinOp> {
        if c == '+' {
            Some(BinOp::Add)
        } else if c == '-' {
            Some(BinOp::Subtract)
        } else if c == '*' {
            Some(BinOp::Multiply)
        } else if c == '/' {
            Some(BinOp::Divide)
        } else {
            None
        }
    }

    /// Computes [`BinOp::spec_of_char`].
    pub fn of_char(c: char) -> (r: Option<BinOp>)
        ensures
            r == BinOp::spec_of_char(c),
    {
        if c == '+' {
            Some(BinOp::Add)
        } else if c == '-' {
            Some(BinOp::Subtract)
        } else if c == '*' {
            Some(BinOp::Multiply)
        } else if c == '/' {
            Some(BinOp::Divide)
        } else {
            None
        }
    }
}

/// A character sequence that spells one numeric literal: it holds at
/// least one digit and at most one dot, and nothing besides digits and
/// dots.
pub open spec fn valid_numeral_text(n: Seq<char>) -> bool {
    &&& has_digit(n)
    &&& forall|j: int| 0 <= j < n.len() ==> is_num_char(n[j])
    &&& dots(n) <= 1
}

/// The text of one numeric literal, as scanned: an optional leading
/// minus, recorded in `negative`, and the literal's digit and dot
/// characters in `text`.
#[derive(Clone, Debug, PartialEq, Eq)]
pub struct Numeral {
    pub negative: bool,
    pub text: Vec<char>,
}

/// The mathematical shape of a [`Numeral`].
pub struct NumeralModel {
    pub negative: bool,
    pub text: Seq<char>,
}

impl View for Numeral {
    type V = NumeralModel;

    open spec fn view(&self) -> NumeralModel {
        NumeralModel { negative: self.negative, text: self.text@ }
    }
}

impl NumeralModel {
    /// A scanned literal is well formed when its text is a valid
    /// numeral.
    pub open spec fn wf(self) -> bool {
        valid_numeral_text(self.text)
    }
}

/// One element of the RPN sequence.
#[derive(Clone, Debug, PartialEq, Eq)]
pub enum Token {
    Number(Numeral),
    Operation(BinOp),
}

/// The mathematical shape of a [`Token`].
pub enum TokenModel {
    Number(NumeralModel),
    Operation(BinOp),
}

impl View for Token {
    type V = TokenModel;

    open spec fn view(&self) -> TokenModel {
        match self {
            Token::Number(n) => TokenModel::Number(n@),
            Token::Operation(op) => TokenModel::Operation(*op),
        }
    }
}

/// The models of a sequence of tokens, in order.
pub open spec fn token_models(ts: Seq<Token>) -> Seq<TokenModel> {
    ts.map_values(|t: Token| t@)
}

/// Appending a token appends its model.
pub proof fn lemma_token_models_push(ts: Seq<Token>, t: Token)
    ensures
        token_models(ts.push(t)) == token_models(ts).push(t@),
{
    assert(token_models(ts.push(t)) =~= token_models(ts).push(t@));
}

} // verus!
