//! What holds of the whole pipeline, from text to value.
use crate::decimal::decimal;
use crate::eval_laws::{
    lemma_division_by_zero, lemma_error_spreads, lemma_value_by_shape, lemma_value_is_exact,
};
use crate::lexer::{is_blank, is_digit, is_known, Token};
use crate::lexer_laws::{
    insert_at, lemma_any_unknown_char_fails, lemma_blank_is_insignificant, lemma_lex_minus_decimal,
    lemma_lex_minus_group, lemma_lex_text, lemma_unbalanced_fails, paren_balance,
};
use crate::parser::{apply, EvalError, Expr, Node};
use crate::parser_laws::lemma_parse_infix;
use crate::pipeline::{evaluate_spec, evaluated, CalcError};
use vstd::prelude::*;

verus! {

/// Evaluation respects precedence and association: the text of a tree that
/// needs no further parentheses evaluates to the value of that tree, in
/// which operators of higher rank bind first, operators of one rank from
/// left to right, and groups as they are written.
pub proof fn lemma_evaluate_text(t: Node)
    requires
        t.canonical(),
    ensures
        evaluate_spec(t.text()) == evaluated(t.value()),
{
    lemma_lex_text(t);
    lemma_parse_infix(t);
}

/// Evaluation is exact integer arithmetic: where no divisor in the tree is
/// zero and the exact value of each of its parts fits in an `i32`, its
/// text evaluates to its exact value; elsewhere it has no value.
pub proof fn lemma_evaluate_exact(t: Node)
    requires
        t.canonical(),
    ensures
        t.sound() ==> evaluate_spec(t.text()) == Ok::<i32, CalcError>(t.exact() as i32),
        !t.sound() ==> (evaluate_spec(t.text()) matches Err(e) && e is Eval),
{
    lemma_evaluate_text(t);
    lemma_value_is_exact(t);
}

/// The decimal notation of any `i32` evaluates to that number.
pub proof fn lemma_evaluate_decimal(n: i32)
    ensures
        evaluate_spec(decimal(n as int)) == Ok::<i32, CalcError>(n),
{
    lemma_evaluate_text(Node::literal(n));
}

/// Parentheses around an expression keep its value, however deep they
/// nest.
pub proof fn lemma_evaluate_group(t: Node)
    requires
        t.canonical(),
    ensures
        evaluate_spec(seq!['('] + t.text() + seq![')']) == evaluate_spec(t.text()),
{
    lemma_evaluate_text(t);
    lemma_evaluate_text(Node::group(t));
}

/// A minus sign in front of a number negates it, so that two of them
/// cancel: behind a minus sign the text of `n` evaluates to `-n`, but for
/// the one `i32` whose negative is out of range.
pub proof fn lemma_evaluate_minus_decimal(n: i32)
    requires
        n != i32::MIN,
    ensures
        evaluate_spec(seq!['-'] + decimal(n as int)) == Ok::<i32, CalcError>((-n) as i32),
{
    lemma_lex_minus_decimal(n);
    lemma_parse_infix(Node::literal((-n) as i32));
}

/// A minus sign in front of a group negates the value of the group:
/// behind a minus sign the text of `t` in parentheses evaluates to zero
/// minus the value of `t`.
pub proof fn lemma_evaluate_minus_group(t: Node)
    requires
        t.canonical(),
    ensures
        evaluate_spec(seq!['-', '('] + t.text() + seq![')']) == evaluated(
            apply(Token::Minus, Ok(0), t.value()),
        ),
{
    let inner = Node::binary(Token::Minus, Node::literal(0), Node::group(t));
    lemma_lex_minus_group(t);
    assert(Node::group(t).canonical());
    assert(Node::literal(0).canonical());
    assert(inner.canonical());
    lemma_parse_infix(t.negation());
    lemma_value_by_shape(inner);
}

/// A blank put in anywhere but between two digits changes neither the
/// value nor the error.
pub proof fn lemma_evaluate_blank(s: Seq<char>, i: int, b: char)
    requires
        0 <= i <= s.len(),
        is_blank(b),
        !(0 < i < s.len() && is_digit(s[i - 1]) && is_digit(s[i])),
    ensures
        evaluate_spec(insert_at(s, i, b)) == evaluate_spec(s),
{
    lemma_blank_is_insignificant(s, i, b);
}

/// A text whose parentheses do not balance has no value: the tokenizer
/// refuses it.
pub proof fn lemma_evaluate_unbalanced(s: Seq<char>)
    requires
        paren_balance(s) != 0,
    ensures
        evaluate_spec(s) matches Err(e) && e is Lex,
{
    lemma_unbalanced_fails(s);
}

/// A text with an unknown character has no value: the tokenizer refuses
/// it, whatever else the text holds.
pub proof fn lemma_evaluate_unknown_char(s: Seq<char>, i: int)
    requires
        0 <= i < s.len(),
        !is_known(s[i]),
    ensures
        evaluate_spec(s) matches Err(e) && e is Lex,
{
    lemma_any_unknown_char_fails(s, i);
}

/// A division by zero always fails: a quotient whose divisor evaluates to
/// zero has no value, and the error is the division by zero unless the
/// dividend fails first.
pub proof fn lemma_evaluate_division_by_zero(l: Node, r: Node)
    requires
        Node::binary(Token::Div, l, r).canonical(),
        r.value() == Ok::<i32, EvalError>(0),
    ensures
        evaluate_spec(l.text() + seq!['/'] + r.text()) matches Err(e) && e is Eval,
        l.value() is Ok ==> evaluate_spec(l.text() + seq!['/'] + r.text()) == Err::<
            i32,
            CalcError,
        >(CalcError::Eval(EvalError::DivisionByZero)),
{
    lemma_evaluate_text(Node::binary(Token::Div, l, r));
    lemma_division_by_zero(l, r);
}

/// An expression with a part that has no value has no value: where a
/// divisor in it evaluates to zero, or a result in it is out of range,
/// the whole fails in evaluation.
pub proof fn lemma_evaluate_error_spreads(t: Node, part: Node)
    requires
        t.canonical(),
        t.has_part(part),
        part.value() is Err,
    ensures
        evaluate_spec(t.text()) matches Err(e) && e is Eval,
{
    lemma_evaluate_text(t);
    lemma_error_spreads(t, part);
}

} // verus!
