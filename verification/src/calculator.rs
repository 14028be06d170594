//! The calculator: an expression string, and its conversion to a postfix
//! (RPN) token sequence by a single shunting-yard scan.
//!
//! The spec function [`conversion`] is the mathematical statement of the
//! scan; [`Calculator::tokenizer`] is the executable scan, proved to
//! return exactly what [`conversion`] says for every input string.

use vstd::prelude::*;
use crate::chars::collect_chars;
use crate::chars::dots;
use crate::chars::has_digit;
use crate::chars::is_digit;
use crate::chars::is_digit_char;
use crate::chars::is_num;
use crate::chars::is_num_char;
use crate::chars::is_space;
use crate::chars::is_space_char;
use crate::chars::is_unary_prev;
use crate::chars::is_unary_prev_char;
use crate::chars::lemma_dots_le;
use crate::chars::lemma_dots_extend;
use crate::chars::lemma_num_end;
use crate::chars::lemma_num_end_at_least;
use crate::chars::lemma_num_end_is;
use crate::chars::num_end;
use crate::errors::CalculatorError;
use crate::tokens::BinOp;
use crate::tokens::Numeral;
use crate::tokens::NumeralModel;
use crate::tokens::Token;
use crate::tokens::TokenModel;
use crate::tokens::lemma_token_models_push;
use crate::tokens::token_models;

verus! {

/// One entry of the transient operator stack: a pending operator, or the
/// marker an opening parenthesis leaves.
#[derive(Clone, Copy, Debug, PartialEq, Eq, Structural)]
pub enum OpSym {
    Pending(BinOp),
    Marker,
}

impl OpSym {
    /// The precedence the stack discipline compares: a marker ranks
    /// below every operator, so popping stops at it.
    pub open spec fn spec_precedence(self) -> int {
        match self {
            OpSym::Pending(op) => op.spec_precedence(),
            OpSym::Marker => 0,
        }
    }
}

/// Popping for an incoming operator of precedence `p`: every operator on
/// top of the stack with precedence at least `p` leaves the stack, in
/// stack order, and becomes an output token.  Returns the remaining
/// stack and the emitted tokens.
pub open spec fn pop_for_precedence(ops: Seq<OpSym>, p: int) -> (Seq<OpSym>, Seq<TokenModel>)
    decreases ops.len(),
{
    if ops.len() == 0 {
        (ops, Seq::empty())
    } else if ops.last().spec_precedence() >= p {
        let rest = pop_for_precedence(ops.drop_last(), p);
        (rest.0, seq![op_token(ops.last())] + rest.1)
    } else {
        (ops, Seq::empty())
    }
}

/// The output token a popped stack entry becomes.  Only operators are
/// ever emitted; a marker never reaches the output.
pub open spec fn op_token(sym: OpSym) -> TokenModel
    recommends
        sym is Pending,
{
    match sym {
        OpSym::Pending(op) => TokenModel::Operation(op),
        OpSym::Marker => TokenModel::Operation(BinOp::Add),
    }
}

/// Popping for a closing parenthesis: operators leave the stack and
/// become output tokens until a marker is popped and discarded.  `None`
/// when the stack holds no marker.
pub open spec fn pop_for_paren(ops: Seq<OpSym>) -> Option<(Seq<OpSym>, Seq<TokenModel>)>
    decreases ops.len(),
{
    if ops.len() == 0 {
        None
    } else if ops.last() == OpSym::Marker {
        Some((ops.drop_last(), Seq::empty()))
    } else {
        match pop_for_paren(ops.drop_last()) {
            None => None,
            Some(rest) => Some((rest.0, seq![op_token(ops.last())] + rest.1)),
        }
    }
}

/// Draining the stack once the scan ends: every pending operator becomes
/// an output token, in stack order.  `None` when a marker is left, which
/// signals an unmatched `(`.
pub open spec fn drain(ops: Seq<OpSym>) -> Option<Seq<TokenModel>>
    decreases ops.len(),
{
    if ops.len() == 0 {
        Some(Seq::empty())
    } else if ops.last() == OpSym::Marker {
        None
    } else {
        match drain(ops.drop_last()) {
            None => None,
            Some(rest) => Some(seq![op_token(ops.last())] + rest),
        }
    }
}

/// Whether the `-` at position `i` is a unary minus: it stands first, or
/// right after an opening parenthesis, an operator or a plain space, and
/// a digit follows it directly.
pub open spec fn unary_minus_at(s: Seq<char>, i: int) -> bool {
    &&& (i == 0 || is_unary_prev_char(s[i - 1]))
    &&& i + 1 < s.len()
    &&& is_digit_char(s[i + 1])
}

/// The numeric literal that starts at `i` (after any unary minus), or
/// the error it raises: more than one dot is an invalid decimal, and a
/// literal with no digit is an invalid expression.
pub open spec fn scan_numeral(s: Seq<char>, i: int) -> Result<Seq<char>, CalculatorError> {
    let span = s.subrange(i, num_end(s, i));
    if dots(span) >= 2 {
        Err(CalculatorError::InvalidDecimal)
    } else if !has_digit(span) {
        Err(CalculatorError::InvalidExpression)
    } else {
        Ok(span)
    }
}

/// One left-to-right shunting-yard scan from position `i`, with operator
/// stack `ops` and the output emitted so far `out`: the full RPN token
/// sequence of the input, or the first error the scan raises.
pub open spec fn scan(s: Seq<char>, i: int, ops: Seq<OpSym>, out: Seq<TokenModel>) -> Result<
    Seq<TokenModel>,
    CalculatorError,
>
    recommends
        0 <= i <= s.len(),
    decreases s.len() - i,
    via scan_decreases
{
    if i < 0 || i >= s.len() {
        match drain(ops) {
            None => Err(CalculatorError::MismatchedParantheses),
            Some(emitted) => Ok(out + emitted),
        }
    } else {
        let c = s[i];
        if is_space_char(c) {
            scan(s, i + 1, ops, out)
        } else if c == '-' && unary_minus_at(s, i) {
            match scan_numeral(s, i + 1) {
                Err(e) => Err(e),
                Ok(text) => scan(
                    s,
                    num_end(s, i + 1),
                    ops,
                    out.push(TokenModel::Number(NumeralModel { negative: true, text })),
                ),
            }
        } else if is_num_char(c) {
            match scan_numeral(s, i) {
                Err(e) => Err(e),
                Ok(text) => scan(
                    s,
                    num_end(s, i),
                    ops,
                    out.push(TokenModel::Number(NumeralModel { negative: false, text })),
                ),
            }
        } else if BinOp::spec_of_char(c) is Some {
            let op = BinOp::spec_of_char(c)->Some_0;
            let popped = pop_for_precedence(ops, op.spec_precedence());
            scan(s, i + 1, popped.0.push(OpSym::Pending(op)), out + popped.1)
        } else if c == '(' {
            scan(s, i + 1, ops.push(OpSym::Marker), out)
        } else if c == ')' {
            match pop_for_paren(ops) {
                None => Err(CalculatorError::MismatchedParantheses),
                Some(popped) => scan(s, i + 1, popped.0, out + popped.1),
            }
        } else {
            Err(CalculatorError::UnsupportedToken)
        }
    }
}

#[via_fn]
proof fn scan_decreases(s: Seq<char>, i: int, ops: Seq<OpSym>, out: Seq<TokenModel>) {
    if 0 <= i < s.len() {
        if s[i] == '-' && unary_minus_at(s, i) {
            lemma_num_end(s, i + 1);
            assert(is_num_char(s[i + 1]));
            assert(num_end(s, i + 1) == num_end(s, i + 2));
            lemma_num_end(s, i + 2);
        } else if is_num_char(s[i]) {
            lemma_num_end(s, i);
            assert(num_end(s, i) == num_end(s, i + 1));
            lemma_num_end(s, i + 1);
        }
    }
}

/// What converting an expression string yields: the scan started on an
/// empty operator stack and an empty output.
pub open spec fn conversion(s: Seq<char>) -> Result<Seq<TokenModel>, CalculatorError> {
    scan(s, 0, Seq::empty(), Seq::empty())
}

/// Scans the numeric literal that starts at `*i`, advancing `*i` past
/// it, exactly as [`scan_numeral`] says: a second dot in the literal is
/// an invalid decimal, and a literal with no digit (a lone `.`) is an
/// invalid expression.
fn parse_number(chars: &Vec<char>, i: &mut usize, is_negative: bool) -> (r: Result<
    Numeral,
    CalculatorError,
>)
    requires
        *old(i) <= chars@.len(),
    ensures
        match r {
            Ok(n) => {
                &&& scan_numeral(chars@, *old(i) as int) == Ok::<Seq<char>, CalculatorError>(
                    n@.text,
                )
                &&& n@.negative == is_negative
                &&& n@.text == chars@.subrange(*old(i) as int, num_end(chars@, *old(i) as int))
                &&& *final(i) == num_end(chars@, *old(i) as int)
                &&& *old(i) < *final(i) <= chars@.len()
                &&& n@.wf()
            },
            Err(e) => scan_numeral(chars@, *old(i) as int) == Err::<Seq<char>, CalculatorError>(e),
        },
{
    let ghost start = *i as int;
    let mut text: Vec<char> = Vec::new();
    let mut dotted = false;
    let mut seen_digit = false;
    proof {
        assert(text@ =~= chars@.subrange(start, start));
    }
    while *i < chars.len() && is_num(chars[*i])
        invariant
            start == *old(i) as int,
            0 <= start <= *i <= chars@.len(),
            forall|k: int| start <= k < *i ==> is_num_char(chars@[k]),
            text@ == chars@.subrange(start, *i as int),
            dots(text@) <= 1,
            dotted == (dots(text@) == 1),
            seen_digit == has_digit(text@),
        decreases chars@.len() - *i,
    {
        let c = chars[*i];
        proof {
            lemma_dots_extend(chars@, start, *i as int);
        }
        if c == '.' {
            if dotted {
                proof {
                    lemma_num_end_at_least(chars@, start, *i + 1);
                    lemma_num_end(chars@, start);
                    lemma_dots_le(chars@, start, *i + 1, num_end(chars@, start));
                }
                return Err(CalculatorError::InvalidDecimal);
            }
            dotted = true;
        } else {
            seen_digit = true;
        }
        text.push(c);
        *i = *i + 1;
        proof {
            assert(text@ =~= chars@.subrange(start, *i as int));
            if seen_digit && !has_digit(chars@.subrange(start, *i as int - 1)) {
                assert(is_digit_char(chars@.subrange(start, *i as int)[*i - 1 - start]));
            }
        }
    }
    proof {
        lemma_num_end_is(chars@, start, *i as int);
    }
    if !seen_digit {
        return Err(CalculatorError::InvalidExpression);
    }
    Ok(Numeral { negative: is_negative, text })
}

/// Whether the operator stack's top entry binds at least as tightly as
/// an incoming operator of precedence `p`.
fn top_binds_at_least(operations: &Vec<OpSym>, p: u8) -> (r: bool)
    requires
        p >= 1,
    ensures
        r == (operations@.len() > 0 && operations@.last().spec_precedence() >= p as int),
{
    if operations.len() == 0 {
        return false;
    }
    let top = operations[operations.len() - 1];
    proof {
        assert(top == operations@.last());
    }
    match top {
        OpSym::Pending(o) => o.precedence() >= p,
        OpSym::Marker => false,
    }
}

/// Whether the operator stack's top entry is a pending operator, not a
/// parenthesis marker.
fn top_is_pending(operations: &Vec<OpSym>) -> (r: bool)
    ensures
        r == (operations@.len() > 0 && operations@.last() is Pending),
{
    if operations.len() == 0 {
        return false;
    }
    match operations[operations.len() - 1] {
        OpSym::Pending(_) => true,
        OpSym::Marker => false,
    }
}

/// An evaluator instance: the raw expression string, and the RPN token
/// sequence that [`Calculator::tokenizer`] fills.
pub struct Calculator {
    pub tokens: Vec<Token>,
    pub expr: String,
}

impl Calculator {
    /// A fresh instance for an expression, with no tokens yet.
    pub fn new(expr: String) -> (r: Calculator)
        ensures
            r.expr@ == expr@,
            r.tokens@.len() == 0,
    {
        Calculator { tokens: Vec::new(), expr }
    }

    /// Converts the expression to RPN order by one shunting-yard scan,
    /// filling `self.tokens`: exactly the token sequence, or exactly the
    /// error, that [`conversion`] gives for the expression.
    #[verifier::loop_isolation(false)]
    #[verifier::rlimit(100)]
    pub fn tokenizer(&mut self) -> (r: Result<(), CalculatorError>)
        ensures
            final(self).expr == old(self).expr,
            match conversion(old(self).expr@) {
                Ok(ts) => r is Ok && token_models(final(self).tokens@) == ts,
                Err(e) => r == Err::<(), CalculatorError>(e),
            },
    {
        let mut i: usize = 0;
        self.tokens = Vec::new();
        let mut operations: Vec<OpSym> = Vec::new();
        let chars: Vec<char> = collect_chars(self.expr.as_str());
        proof {
            assert(token_models(self.tokens@) =~= Seq::<TokenModel>::empty());
            assert(operations@ =~= Seq::<OpSym>::empty());
        }

        while i < chars.len()
            invariant
                self.expr == old(self).expr,
                chars@ == old(self).expr@,
                i <= chars@.len(),
                scan(chars@, i as int, operations@, token_models(self.tokens@)) == conversion(
                    old(self).expr@,
                ),
            decreases chars@.len() - i,
        {
            let c = chars[i];

            if is_space(c) {
                i = i + 1;
                continue;
            }

            if c == '-' {
                let is_unary = i == 0 || is_unary_prev(chars[i - 1]);
                if is_unary && i + 1 < chars.len() && is_digit(chars[i + 1]) {
                    proof {
                        assert(unary_minus_at(chars@, i as int));
                    }
                    i = i + 1;
                    match parse_number(&chars, &mut i, true) {
                        Err(e) => {
                            return Err(e);
                        },
                        Ok(number) => {
                            proof {
                                lemma_token_models_push(self.tokens@, Token::Number(number));
                            }
                            self.tokens.push(Token::Number(number));
                        },
                    }
                    continue;
                }
            }

            if is_num(c) {
                match parse_number(&chars, &mut i, false) {
                    Err(e) => {
                        return Err(e);
                    },
                    Ok(number) => {
                        proof {
                            lemma_token_models_push(self.tokens@, Token::Number(number));
                        }
                        self.tokens.push(Token::Number(number));
                    },
                }
                continue;
            }

            match BinOp::of_char(c) {
                Some(op) => {
                    let p = op.precedence();
                    let ghost ops0 = operations@;
                    let ghost out0 = token_models(self.tokens@);
                    while top_binds_at_least(&operations, p)
                        invariant
                            self.expr == old(self).expr,
                            1 <= p as int == op.spec_precedence(),
                            pop_for_precedence(ops0, p as int).0 == pop_for_precedence(
                                operations@,
                                p as int,
                            ).0,
                            out0 + pop_for_precedence(ops0, p as int).1 == token_models(
                                self.tokens@,
                            ) + pop_for_precedence(operations@, p as int).1,
                        decreases operations@.len(),
                    {
                        let top = operations.pop().unwrap();
                        match top {
                            OpSym::Pending(o) => {
                                proof {
                                    lemma_token_models_push(self.tokens@, Token::Operation(o));
                                    assert(out0 + pop_for_precedence(ops0, p as int).1
                                        =~= token_models(self.tokens@).push(
                                        TokenModel::Operation(o),
                                    ) + pop_for_precedence(operations@, p as int).1);
                                }
                                self.tokens.push(Token::Operation(o));
                            },
                            OpSym::Marker => {
                                assert(false);
                            },
                        }
                    }
                    proof {
                        assert(pop_for_precedence(operations@, p as int) == (
                            operations@,
                            Seq::<TokenModel>::empty(),
                        ));
                        assert(out0 + pop_for_precedence(ops0, p as int).1 =~= token_models(
                            self.tokens@,
                        ));
                    }
                    operations.push(OpSym::Pending(op));
                },
                None => {
                    if c == '(' {
                        operations.push(OpSym::Marker);
                    } else if c == ')' {
                        let ghost ops0 = operations@;
                        let ghost out0 = token_models(self.tokens@);
                        while top_is_pending(&operations)
                            invariant
                                self.expr == old(self).expr,
                                match pop_for_paren(ops0) {
                                    None => pop_for_paren(operations@) is None,
                                    Some(r0) => (match pop_for_paren(operations@) {
                                        None => false,
                                        Some(rc) => r0.0 == rc.0 && out0 + r0.1 == token_models(
                                            self.tokens@,
                                        ) + rc.1,
                                    }),
                                },
                            decreases operations@.len(),
                        {
                            let top = operations.pop().unwrap();
                            match top {
                                OpSym::Pending(o) => {
                                    proof {
                                        lemma_token_models_push(self.tokens@, Token::Operation(o));
                                        if pop_for_paren(ops0) is Some {
                                            assert(out0 + (pop_for_paren(ops0)->Some_0).1
                                                =~= token_models(self.tokens@).push(
                                                TokenModel::Operation(o),
                                            ) + (pop_for_paren(operations@)->Some_0).1);
                                        }
                                    }
                                    self.tokens.push(Token::Operation(o));
                                },
                                OpSym::Marker => {
                                    assert(false);
                                },
                            }
                        }
                        if operations.len() == 0 {
                            return Err(CalculatorError::MismatchedParantheses);
                        }
                        operations.pop();
                    } else {
                        return Err(CalculatorError::UnsupportedToken);
                    }
                },
            }

            i = i + 1;
        }

        let ghost ops0 = operations@;
        let ghost out0 = token_models(self.tokens@);
        while operations.len() > 0
            invariant
                self.expr == old(self).expr,
                match drain(ops0) {
                    None => drain(operations@) is None,
                    Some(e0) => (match drain(operations@) {
                        None => false,
                        Some(ec) => out0 + e0 == token_models(self.tokens@) + ec,
                    }),
                },
            decreases operations@.len(),
        {
            let top = operations.pop().unwrap();
            match top {
                OpSym::Marker => {
                    return Err(CalculatorError::MismatchedParantheses);
                },
                OpSym::Pending(o) => {
                    proof {
                        lemma_token_models_push(self.tokens@, Token::Operation(o));
                        if drain(ops0) is Some {
                            assert(out0 + drain(ops0)->Some_0 =~= token_models(self.tokens@).push(
                                TokenModel::Operation(o),
                            ) + drain(operations@)->Some_0);
                        }
                    }
                    self.tokens.push(Token::Operation(o));
                },
            }
        }
        proof {
            assert(drain(operations@) == Some(Seq::<TokenModel>::empty()));
            if drain(ops0) is Some {
                assert(out0 + drain(ops0)->Some_0 =~= token_models(self.tokens@));
            }
        }
        Ok(())
    }
}

} // verus!
