//! Laws of the conversion pipeline, proved once and for all inputs.

use vstd::prelude::*;
use crate::calculator::OpSym;
use crate::calculator::conversion;
use crate::calculator::pop_for_paren;
use crate::calculator::pop_for_precedence;
use crate::calculator::drain;
use crate::calculator::scan;
use crate::calculator::scan_numeral;
use crate::calculator::unary_minus_at;
use crate::chars::is_digit_char;
use crate::chars::is_num_char;
use crate::chars::is_space_char;
use crate::chars::is_unary_prev_char;
use crate::chars::lemma_num_end;
use crate::chars::lemma_num_end_is;
use crate::chars::num_end;
use crate::tokens::BinOp;
use crate::tokens::NumeralModel;
use crate::tokens::TokenModel;
use crate::tokens::valid_numeral_text;

verus! {

/// Evaluating the same immutable expression twice, through independent
/// instances, yields identical outcomes: conversion is a function of
/// the character sequence alone, and every evaluation decision is a
/// function of its arguments alone, so no state survives a call.
pub proof fn lemma_conversion_deterministic(a: Seq<char>, b: Seq<char>)
    requires
        a == b,
    ensures
        conversion(a) == conversion(b),
{
}

/// A scan standing on a numeral consumes exactly that numeral and
/// emits its number token.
proof fn lemma_scan_numeral_step(
    s: Seq<char>,
    i: int,
    n: Seq<char>,
    ops: Seq<OpSym>,
    out: Seq<TokenModel>,
)
    requires
        0 <= i,
        i + n.len() <= s.len(),
        s.subrange(i, i + n.len()) == n,
        valid_numeral_text(n),
        i + n.len() < s.len() ==> !is_num_char(s[i + n.len()]),
    ensures
        scan(s, i, ops, out) == scan(
            s,
            i + n.len(),
            ops,
            out.push(TokenModel::Number(NumeralModel { negative: false, text: n })),
        ),
{
    assert(forall|k: int| i <= k < i + n.len() ==> s[k] == n[k - i] && is_num_char(s[k]));
    lemma_num_end_is(s, i, i + n.len());
    assert(s[i] == n[0]);
    assert(is_num_char(s[i]));
    assert(!is_space_char(s[i]));
    assert(s[i] != '-');
    assert(scan_numeral(s, i) == Ok::<Seq<char>, crate::errors::CalculatorError>(n));
}

/// A scan standing on a binary operator pops for its precedence,
/// pushes it, and moves on.
proof fn lemma_scan_op_step(s: Seq<char>, i: int, op: BinOp, ops: Seq<OpSym>, out: Seq<TokenModel>)
    requires
        0 <= i < s.len(),
        s[i] == op.spec_char(),
        s[i] == '-' ==> !unary_minus_at(s, i),
    ensures
        scan(s, i, ops, out) == scan(
            s,
            i + 1,
            pop_for_precedence(ops, op.spec_precedence()).0.push(OpSym::Pending(op)),
            out + pop_for_precedence(ops, op.spec_precedence()).1,
        ),
{
    assert(!is_space_char(s[i]));
    assert(!is_num_char(s[i]));
    assert(BinOp::spec_of_char(s[i]) == Some(op));
}

/// ROUND TRIP: for a parenthesis-free expression whose operators have
/// strictly increasing precedence left to right, the RPN sequence is
/// the operands in their original order followed by the operators in
/// reverse, so the original left-to-right operator/operand order is
/// recoverable from it.
pub proof fn lemma_round_trip(
    n0: Seq<char>,
    op1: BinOp,
    n1: Seq<char>,
    op2: BinOp,
    n2: Seq<char>,
)
    requires
        valid_numeral_text(n0),
        valid_numeral_text(n1),
        valid_numeral_text(n2),
        op1.spec_precedence() < op2.spec_precedence(),
    ensures
        conversion(n0 + seq![op1.spec_char()] + n1 + seq![op2.spec_char()] + n2) == Ok::<
            Seq<TokenModel>,
            crate::errors::CalculatorError,
        >(
            seq![
                TokenModel::Number(NumeralModel { negative: false, text: n0 }),
                TokenModel::Number(NumeralModel { negative: false, text: n1 }),
                TokenModel::Number(NumeralModel { negative: false, text: n2 }),
                TokenModel::Operation(op2),
                TokenModel::Operation(op1),
            ],
        ),
{
    let s = n0 + seq![op1.spec_char()] + n1 + seq![op2.spec_char()] + n2;
    let a = n0.len() as int;
    let b = a + 1 + n1.len();
    let e = b + 1 + n2.len();
    assert(s.len() == e);
    assert(s.subrange(0, a) =~= n0);
    assert(s[a] == op1.spec_char());
    assert(s.subrange(a + 1, b) =~= n1);
    assert(s[b] == op2.spec_char());
    assert(s.subrange(b + 1, e) =~= n2);

    let t0 = TokenModel::Number(NumeralModel { negative: false, text: n0 });
    let t1 = TokenModel::Number(NumeralModel { negative: false, text: n1 });
    let t2 = TokenModel::Number(NumeralModel { negative: false, text: n2 });
    let empty_ops = Seq::<OpSym>::empty();
    let empty_out = Seq::<TokenModel>::empty();

    // The first numeral.
    assert(!is_num_char(s[a]));
    lemma_scan_numeral_step(s, 0, n0, empty_ops, empty_out);
    // Its operator: the character before it is a digit or a dot, so a
    // minus here is binary.
    assert(is_num_char(s[a - 1]));
    assert(!is_unary_prev_char(s[a - 1]));
    assert(s[a] == '-' ==> !unary_minus_at(s, a));
    lemma_scan_op_step(s, a, op1, empty_ops, empty_out.push(t0));
    assert(pop_for_precedence(empty_ops, op1.spec_precedence()) == (
        empty_ops,
        Seq::<TokenModel>::empty(),
    ));
    let ops1 = empty_ops.push(OpSym::Pending(op1));
    let out1 = empty_out.push(t0) + Seq::<TokenModel>::empty();
    assert(out1 =~= seq![t0]);

    // The second numeral.
    assert(!is_num_char(s[b]));
    lemma_scan_numeral_step(s, a + 1, n1, ops1, out1);
    // Its operator binds tighter, so nothing is popped.
    assert(is_num_char(s[b - 1]));
    assert(s[b] == '-' ==> !unary_minus_at(s, b));
    lemma_scan_op_step(s, b, op2, ops1, out1.push(t1));
    assert(ops1.last() == OpSym::Pending(op1));
    assert(ops1.last().spec_precedence() < op2.spec_precedence());
    assert(pop_for_precedence(ops1, op2.spec_precedence()) == (
        ops1,
        Seq::<TokenModel>::empty(),
    ));
    let ops2 = ops1.push(OpSym::Pending(op2));
    let out2 = out1.push(t1) + Seq::<TokenModel>::empty();
    assert(out2 =~= seq![t0, t1]);

    // The third numeral, then the end of the input.
    lemma_scan_numeral_step(s, b + 1, n2, ops2, out2);
    assert(scan(s, e, ops2, out2.push(t2)) == (match drain(ops2) {
        None => Err::<Seq<TokenModel>, crate::errors::CalculatorError>(
            crate::errors::CalculatorError::MismatchedParantheses,
        ),
        Some(emitted) => Ok(out2.push(t2) + emitted),
    }));
    // Draining emits the tighter-binding operator first.
    assert(ops2.drop_last() =~= ops1);
    assert(ops1.drop_last() =~= empty_ops);
    assert(drain(empty_ops) == Some(Seq::<TokenModel>::empty()));
    assert(drain(ops1) == Some(
        seq![TokenModel::Operation(op1)] + Seq::<TokenModel>::empty(),
    ));
    assert(drain(ops2) == Some(
        seq![TokenModel::Operation(op2)] + (seq![TokenModel::Operation(op1)]
            + Seq::<TokenModel>::empty()),
    ));
    assert(out2.push(t2) + (seq![TokenModel::Operation(op2)] + (seq![
        TokenModel::Operation(op1),
    ] + Seq::<TokenModel>::empty())) =~= seq![t0, t1, t2, TokenModel::Operation(op2), TokenModel::Operation(op1)]);
}

/// LEFT-TO-RIGHT ASSOCIATIVITY: when the second operator does not bind
/// tighter than the first, the first operator's token comes out before
/// the second operand, so the left operation is applied first.  With
/// equal precedences this is exactly left-to-right evaluation.
pub proof fn lemma_left_to_right(
    n0: Seq<char>,
    op1: BinOp,
    n1: Seq<char>,
    op2: BinOp,
    n2: Seq<char>,
)
    requires
        valid_numeral_text(n0),
        valid_numeral_text(n1),
        valid_numeral_text(n2),
        op1.spec_precedence() >= op2.spec_precedence(),
    ensures
        conversion(n0 + seq![op1.spec_char()] + n1 + seq![op2.spec_char()] + n2) == Ok::<
            Seq<TokenModel>,
            crate::errors::CalculatorError,
        >(
            seq![
                TokenModel::Number(NumeralModel { negative: false, text: n0 }),
                TokenModel::Number(NumeralModel { negative: false, text: n1 }),
                TokenModel::Operation(op1),
                TokenModel::Number(NumeralModel { negative: false, text: n2 }),
                TokenModel::Operation(op2),
            ],
        ),
{
    let s = n0 + seq![op1.spec_char()] + n1 + seq![op2.spec_char()] + n2;
    let a = n0.len() as int;
    let b = a + 1 + n1.len();
    let e = b + 1 + n2.len();
    assert(s.len() == e);
    assert(s.subrange(0, a) =~= n0);
    assert(s[a] == op1.spec_char());
    assert(s.subrange(a + 1, b) =~= n1);
    assert(s[b] == op2.spec_char());
    assert(s.subrange(b + 1, e) =~= n2);

    let t0 = TokenModel::Number(NumeralModel { negative: false, text: n0 });
    let t1 = TokenModel::Number(NumeralModel { negative: false, text: n1 });
    let t2 = TokenModel::Number(NumeralModel { negative: false, text: n2 });
    let empty_ops = Seq::<OpSym>::empty();
    let empty_out = Seq::<TokenModel>::empty();

    // The first numeral and its operator, onto the empty stack.
    assert(!is_num_char(s[a]));
    lemma_scan_numeral_step(s, 0, n0, empty_ops, empty_out);
    assert(is_num_char(s[a - 1]));
    assert(s[a] == '-' ==> !unary_minus_at(s, a));
    lemma_scan_op_step(s, a, op1, empty_ops, empty_out.push(t0));
    assert(pop_for_precedence(empty_ops, op1.spec_precedence()) == (
        empty_ops,
        Seq::<TokenModel>::empty(),
    ));
    let ops1 = empty_ops.push(OpSym::Pending(op1));
    let out1 = empty_out.push(t0) + Seq::<TokenModel>::empty();
    assert(out1 =~= seq![t0]);

    // The second numeral; its operator pops the first one out.
    assert(!is_num_char(s[b]));
    lemma_scan_numeral_step(s, a + 1, n1, ops1, out1);
    assert(is_num_char(s[b - 1]));
    assert(s[b] == '-' ==> !unary_minus_at(s, b));
    lemma_scan_op_step(s, b, op2, ops1, out1.push(t1));
    assert(ops1.last() == OpSym::Pending(op1));
    assert(ops1.last().spec_precedence() >= op2.spec_precedence());
    assert(ops1.drop_last() =~= empty_ops);
    assert(pop_for_precedence(ops1, op2.spec_precedence()) == (
        empty_ops,
        seq![TokenModel::Operation(op1)] + Seq::<TokenModel>::empty(),
    ));
    let ops2 = empty_ops.push(OpSym::Pending(op2));
    let out2 = out1.push(t1) + (seq![TokenModel::Operation(op1)] + Seq::<TokenModel>::empty());
    assert(out2 =~= seq![t0, t1, TokenModel::Operation(op1)]);

    // The third numeral, then the drain of the one pending operator.
    lemma_scan_numeral_step(s, b + 1, n2, ops2, out2);
    assert(ops2.drop_last() =~= empty_ops);
    assert(drain(empty_ops) == Some(Seq::<TokenModel>::empty()));
    assert(drain(ops2) == Some(
        seq![TokenModel::Operation(op2)] + Seq::<TokenModel>::empty(),
    ));
    assert(out2.push(t2) + (seq![TokenModel::Operation(op2)] + Seq::<TokenModel>::empty())
        =~= seq![t0, t1, TokenModel::Operation(op1), t2, TokenModel::Operation(op2)]);
}

/// Every number token in the sequence carries a well-formed numeral
/// text: at least one digit, at most one dot, nothing else.
pub open spec fn numerals_wf(ts: Seq<TokenModel>) -> bool {
    forall|m: int|
        0 <= m < ts.len() ==> (ts[m] is Number ==> valid_numeral_text((ts[m]->Number_0).text))
}

/// Popping for an operator emits operator tokens only.
proof fn lemma_pop_for_precedence_ops(ops: Seq<OpSym>, p: int)
    ensures
        forall|m: int|
            0 <= m < pop_for_precedence(ops, p).1.len() ==> pop_for_precedence(
                ops,
                p,
            ).1[m] is Operation,
    decreases ops.len(),
{
    if ops.len() > 0 && ops.last().spec_precedence() >= p {
        lemma_pop_for_precedence_ops(ops.drop_last(), p);
    }
}

/// Popping for a closing parenthesis emits operator tokens only.
proof fn lemma_pop_for_paren_ops(ops: Seq<OpSym>)
    ensures
        match pop_for_paren(ops) {
            None => true,
            Some(popped) => forall|m: int| 0 <= m < popped.1.len() ==> popped.1[m] is Operation,
        },
    decreases ops.len(),
{
    if ops.len() > 0 && ops.last() != OpSym::Marker {
        lemma_pop_for_paren_ops(ops.drop_last());
    }
}

/// Draining the stack emits operator tokens only.
proof fn lemma_drain_ops(ops: Seq<OpSym>)
    ensures
        match drain(ops) {
            None => true,
            Some(emitted) => forall|m: int| 0 <= m < emitted.len() ==> emitted[m] is Operation,
        },
    decreases ops.len(),
{
    if ops.len() > 0 && ops.last() != OpSym::Marker {
        lemma_drain_ops(ops.drop_last());
    }
}

/// A scan that emitted only well-formed numerals so far keeps it that
/// way.
proof fn lemma_scan_numerals_wf(s: Seq<char>, i: int, ops: Seq<OpSym>, out: Seq<TokenModel>)
    requires
        0 <= i <= s.len(),
        numerals_wf(out),
    ensures
        match scan(s, i, ops, out) {
            Ok(ts) => numerals_wf(ts),
            Err(_) => true,
        },
    decreases s.len() - i,
{
    if i >= s.len() {
        lemma_drain_ops(ops);
    } else {
        let c = s[i];
        if is_space_char(c) {
            lemma_scan_numerals_wf(s, i + 1, ops, out);
        } else if c == '-' && unary_minus_at(s, i) {
            lemma_num_end(s, i + 1);
            match scan_numeral(s, i + 1) {
                Err(_) => {},
                Ok(text) => {
                    lemma_scan_numerals_wf(
                        s,
                        num_end(s, i + 1),
                        ops,
                        out.push(TokenModel::Number(NumeralModel { negative: true, text })),
                    );
                },
            }
        } else if is_num_char(c) {
            lemma_num_end(s, i + 1);
            assert(num_end(s, i) == num_end(s, i + 1));
            match scan_numeral(s, i) {
                Err(_) => {},
                Ok(text) => {
                    lemma_scan_numerals_wf(
                        s,
                        num_end(s, i),
                        ops,
                        out.push(TokenModel::Number(NumeralModel { negative: false, text })),
                    );
                },
            }
        } else if BinOp::spec_of_char(c) is Some {
            let op = BinOp::spec_of_char(c)->Some_0;
            let popped = pop_for_precedence(ops, op.spec_precedence());
            lemma_pop_for_precedence_ops(ops, op.spec_precedence());
            lemma_scan_numerals_wf(s, i + 1, popped.0.push(OpSym::Pending(op)), out + popped.1);
        } else if c == '(' {
            lemma_scan_numerals_wf(s, i + 1, ops.push(OpSym::Marker), out);
        } else if c == ')' {
            lemma_pop_for_paren_ops(ops);
            match pop_for_paren(ops) {
                None => {},
                Some(popped) => {
                    lemma_scan_numerals_wf(s, i + 1, popped.0, out + popped.1);
                },
            }
        }
    }
}

/// WELL-FORMED NUMERALS: every number token of a successful conversion
/// carries at least one digit and at most one dot, and nothing besides
/// digits and dots, so its literal always denotes a number.
pub proof fn lemma_conversion_numerals_wf(s: Seq<char>)
    ensures
        match conversion(s) {
            Ok(ts) => numerals_wf(ts),
            Err(_) => true,
        },
{
    lemma_scan_numerals_wf(s, 0, Seq::empty(), Seq::empty());
}

/// The sequence with one plain space inserted at position `k`.
pub open spec fn insert_space(s: Seq<char>, k: int) -> Seq<char> {
    s.subrange(0, k) + seq![' '] + s.subrange(k, s.len() as int)
}

/// The positions where one plain space may come or go without changing
/// the conversion: not inside a numeral, not to the left of a minus
/// whose left neighbour is an operand (the space would make that minus
/// unary), and not between a unary minus and its digit (the space would
/// make that minus binary).
pub open spec fn space_insert_ok(s: Seq<char>, k: int) -> bool {
    &&& 0 <= k <= s.len()
    &&& !(0 < k < s.len() && is_num_char(s[k - 1]) && is_num_char(s[k]))
    &&& ((k + 1 < s.len() && s[k] == '-' && is_digit_char(s[k + 1])) ==> k == 0
        || is_unary_prev_char(s[k - 1]))
    &&& ((0 < k < s.len() && s[k - 1] == '-' && is_digit_char(s[k])) ==> !(k == 1
        || is_unary_prev_char(s[k - 2])))
}

/// How the inserted space shifts every index.
proof fn lemma_insert_space_index(s: Seq<char>, k: int)
    requires
        0 <= k <= s.len(),
    ensures
        insert_space(s, k).len() == s.len() + 1,
        forall|m: int| 0 <= m < k ==> insert_space(s, k)[m] == s[m],
        insert_space(s, k)[k] == ' ',
        forall|m: int| k <= m < s.len() ==> insert_space(s, k)[m + 1] == s[m],
{
}

/// A scan standing on a space skips it.
proof fn lemma_scan_past_space(t: Seq<char>, k: int, ops: Seq<OpSym>, out: Seq<TokenModel>)
    requires
        0 <= k < t.len(),
        t[k] == ' ',
    ensures
        scan(t, k, ops, out) == scan(t, k + 1, ops, out),
{
    assert(is_space_char(t[k]));
}

/// A numeral that starts below the insertion point ends at or before
/// it, and reads the same with the space inserted.
proof fn lemma_num_end_insert_low(s: Seq<char>, k: int, m: int)
    requires
        space_insert_ok(s, k),
        0 <= m < k,
    ensures
        num_end(s, m) <= k,
        num_end(insert_space(s, k), m) == num_end(s, m),
        insert_space(s, k).subrange(m, num_end(s, m)) == s.subrange(m, num_end(s, m)),
{
    let t = insert_space(s, k);
    let e = num_end(s, m);
    lemma_insert_space_index(s, k);
    lemma_num_end(s, m);
    if e > k {
        assert(is_num_char(s[k - 1]) && is_num_char(s[k]));
        assert(false);
    }
    assert(forall|x: int| m <= x < e ==> t[x] == s[x] && is_num_char(t[x]));
    if e < k {
        assert(t[e] == s[e]);
        assert(!is_num_char(t[e]));
    } else {
        assert(t[e] == ' ');
        assert(!is_num_char(t[e]));
    }
    lemma_num_end_is(t, m, e);
    assert(t.subrange(m, e) =~= s.subrange(m, e));
}

/// A numeral that starts at or after the insertion point is shifted
/// right by one and reads the same.
proof fn lemma_num_end_insert_high(s: Seq<char>, k: int, m: int)
    requires
        0 <= k <= m <= s.len(),
    ensures
        num_end(insert_space(s, k), m + 1) == num_end(s, m) + 1,
        insert_space(s, k).subrange(m + 1, num_end(s, m) + 1) == s.subrange(m, num_end(s, m)),
{
    let t = insert_space(s, k);
    let e = num_end(s, m);
    lemma_insert_space_index(s, k);
    lemma_num_end(s, m);
    assert(forall|x: int| m + 1 <= x < e + 1 ==> t[x] == s[x - 1] && is_num_char(t[x]));
    if e < s.len() {
        assert(t[e + 1] == s[e]);
        assert(!is_num_char(t[e + 1]));
    }
    lemma_num_end_is(t, m + 1, e + 1);
    assert(t.subrange(m + 1, e + 1) =~= s.subrange(m, e));
}

/// The scan gives the same outcome on the string with the space
/// inserted, from every pair of matching positions.
proof fn lemma_scan_space_insert(
    s: Seq<char>,
    k: int,
    i: int,
    ops: Seq<OpSym>,
    out: Seq<TokenModel>,
)
    requires
        space_insert_ok(s, k),
        0 <= i <= s.len(),
    ensures
        scan(s, i, ops, out) == scan(insert_space(s, k), if i < k { i } else { i + 1 }, ops, out),
    decreases s.len() - i,
{
    let t = insert_space(s, k);
    lemma_insert_space_index(s, k);
    let j: int = if i < k { i } else { i + 1 };
    if i == s.len() {
        // Both positions are past the end: the stacks drain alike.
        assert(j == i + 1);
    } else {
        let c = s[i];
        assert(t[j] == c);
        if is_space_char(c) {
            lemma_scan_space_insert(s, k, i + 1, ops, out);
            if i + 1 == k {
                lemma_scan_past_space(t, k, ops, out);
            }
        } else if c == '-' && unary_minus_at(s, i) {
            // The minus stays unary with the space inserted.
            if i < k {
                if i + 1 == k {
                    // A space between a unary minus and its digit is
                    // ruled out.
                    assert(is_digit_char(s[k]));
                    assert(i == 0 || is_unary_prev_char(s[i - 1]));
                    assert(false);
                }
                assert(t[j + 1] == s[i + 1]);
                assert(i > 0 ==> t[j - 1] == s[i - 1]);
                assert(unary_minus_at(t, j));
                lemma_num_end_insert_low(s, k, i + 1);
                lemma_num_end(s, i + 1);
                let e = num_end(s, i + 1);
                assert(scan_numeral(t, j + 1) == scan_numeral(s, i + 1));
                match scan_numeral(s, i + 1) {
                    Err(_) => {},
                    Ok(text) => {
                        lemma_scan_space_insert(
                            s,
                            k,
                            e,
                            ops,
                            out.push(TokenModel::Number(NumeralModel { negative: true, text })),
                        );
                        if e == k {
                            lemma_scan_past_space(
                                t,
                                k,
                                ops,
                                out.push(TokenModel::Number(NumeralModel { negative: true, text })),
                            );
                        }
                    },
                }
            } else {
                if i == k {
                    assert(t[j - 1] == ' ');
                } else {
                    assert(t[j - 1] == s[i - 1]);
                }
                assert(t[j + 1] == s[i + 1]);
                assert(unary_minus_at(t, j));
                lemma_num_end_insert_high(s, k, i + 1);
                lemma_num_end(s, i + 1);
                let e = num_end(s, i + 1);
                assert(scan_numeral(t, j + 1) == scan_numeral(s, i + 1));
                match scan_numeral(s, i + 1) {
                    Err(_) => {},
                    Ok(text) => {
                        lemma_scan_space_insert(
                            s,
                            k,
                            e,
                            ops,
                            out.push(TokenModel::Number(NumeralModel { negative: true, text })),
                        );
                    },
                }
            }
        } else if is_num_char(c) {
            if i < k {
                lemma_num_end_insert_low(s, k, i);
                lemma_num_end(s, i + 1);
                assert(num_end(s, i) == num_end(s, i + 1));
                let e = num_end(s, i);
                assert(scan_numeral(t, j) == scan_numeral(s, i));
                match scan_numeral(s, i) {
                    Err(_) => {},
                    Ok(text) => {
                        lemma_scan_space_insert(
                            s,
                            k,
                            e,
                            ops,
                            out.push(TokenModel::Number(NumeralModel { negative: false, text })),
                        );
                        if e == k {
                            lemma_scan_past_space(
                                t,
                                k,
                                ops,
                                out.push(
                                    TokenModel::Number(NumeralModel { negative: false, text }),
                                ),
                            );
                        }
                    },
                }
            } else {
                lemma_num_end_insert_high(s, k, i);
                lemma_num_end(s, i + 1);
                assert(num_end(s, i) == num_end(s, i + 1));
                let e = num_end(s, i);
                assert(scan_numeral(t, j) == scan_numeral(s, i));
                match scan_numeral(s, i) {
                    Err(_) => {},
                    Ok(text) => {
                        lemma_scan_space_insert(
                            s,
                            k,
                            e,
                            ops,
                            out.push(TokenModel::Number(NumeralModel { negative: false, text })),
                        );
                    },
                }
            }
        } else {
            // An operator, a parenthesis, or an unsupported character:
            // the same character stands at the matching position, and a
            // minus here is binary on both sides.
            if c == '-' {
                assert(!unary_minus_at(t, j)) by {
                    if unary_minus_at(t, j) {
                        assert(t[j + 1] == (if i + 1 < k {
                            s[i + 1]
                        } else if i + 1 == k && i < k {
                            ' '
                        } else {
                            s[i + 1]
                        }));
                        if i < k && i + 1 == k {
                            assert(!is_digit_char(t[j + 1]));
                        } else {
                            assert(is_digit_char(s[i + 1]));
                            if i == 0 {
                                assert(unary_minus_at(s, i));
                            } else if i < k {
                                assert(t[j - 1] == s[i - 1]);
                                assert(unary_minus_at(s, i));
                            } else if i == k {
                                assert(k == 0 || is_unary_prev_char(s[k - 1]));
                                assert(unary_minus_at(s, i));
                            } else {
                                assert(t[j - 1] == s[i - 1]);
                                assert(unary_minus_at(s, i));
                            }
                        }
                    }
                };
            }
            if i + 1 == k {
                // The recursion lands on the inserted space.
                if BinOp::spec_of_char(c) is Some {
                    let op = BinOp::spec_of_char(c)->Some_0;
                    let popped = pop_for_precedence(ops, op.spec_precedence());
                    lemma_scan_space_insert(
                        s,
                        k,
                        i + 1,
                        popped.0.push(OpSym::Pending(op)),
                        out + popped.1,
                    );
                    lemma_scan_past_space(t, k, popped.0.push(OpSym::Pending(op)), out + popped.1);
                } else if c == '(' {
                    lemma_scan_space_insert(s, k, i + 1, ops.push(OpSym::Marker), out);
                    lemma_scan_past_space(t, k, ops.push(OpSym::Marker), out);
                } else if c == ')' {
                    match pop_for_paren(ops) {
                        None => {},
                        Some(popped) => {
                            lemma_scan_space_insert(s, k, i + 1, popped.0, out + popped.1);
                            lemma_scan_past_space(t, k, popped.0, out + popped.1);
                        },
                    }
                }
            } else {
                if BinOp::spec_of_char(c) is Some {
                    let op = BinOp::spec_of_char(c)->Some_0;
                    let popped = pop_for_precedence(ops, op.spec_precedence());
                    lemma_scan_space_insert(
                        s,
                        k,
                        i + 1,
                        popped.0.push(OpSym::Pending(op)),
                        out + popped.1,
                    );
                } else if c == '(' {
                    lemma_scan_space_insert(s, k, i + 1, ops.push(OpSym::Marker), out);
                } else if c == ')' {
                    match pop_for_paren(ops) {
                        None => {},
                        Some(popped) => {
                            lemma_scan_space_insert(s, k, i + 1, popped.0, out + popped.1);
                        },
                    }
                }
            }
        }
    }
}

/// WHITESPACE INVARIANCE: inserting one plain space at any admissible
/// position — outside every numeral, and not beside a minus whose
/// unary-or-binary reading the space would change — never changes what
/// conversion yields.  Read right to left, the same statement covers
/// removing such a space.
pub proof fn lemma_space_insertion(s: Seq<char>, k: int)
    requires
        space_insert_ok(s, k),
    ensures
        conversion(insert_space(s, k)) == conversion(s),
{
    lemma_scan_space_insert(s, k, 0, Seq::empty(), Seq::empty());
    if k == 0 {
        lemma_insert_space_index(s, k);
        lemma_scan_past_space(insert_space(s, 0), 0, Seq::empty(), Seq::empty());
    }
}

} // verus!

