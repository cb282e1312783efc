//! The whole pipeline: from the text of an expression to its value.
use crate::lexer::{lex_spec, lexer, LexError};
use crate::parser::{parse, parse_spec, EvalError, Expr, Node, ParseError};
use crate::pipeline_laws::lemma_evaluate_text;
use vstd::prelude::*;

verus! {

/// Why a text has no value: the error of the stage that failed.
#[derive(Debug, PartialEq, Eq, Clone, Copy, Structural)]
pub enum CalcError {
    Lex(LexError),
    Parse(ParseError),
    Eval(EvalError),
}

/// The result of an evaluation as a result of the pipeline.
pub open spec fn evaluated(v: Result<i32, EvalError>) -> Result<i32, CalcError> {
    match v {
        Ok(n) => Ok(n),
        Err(e) => Err(CalcError::Eval(e)),
    }
}

/// The value of the expression that the text `s` holds: its tokens, their
/// tree, and the value of the tree, or the error of the first stage that
/// fails.
pub open spec fn evaluate_spec(s: Seq<char>) -> Result<i32, CalcError> {
    match lex_spec(s) {
        Err(e) => Err(CalcError::Lex(e)),
        Ok(ts) => match parse_spec(ts) {
            Err(e) => Err(CalcError::Parse(e)),
            Ok(root) => evaluated(root.value()),
        },
    }
}

/// Evaluates the expression that `expr` holds. Where `expr` is the text of
/// a tree that needs no further parentheses, the result is the value of
/// that tree.
pub fn evaluate(expr: &str) -> (r: Result<i32, CalcError>)
    ensures
        r == evaluate_spec(expr@),
        forall|t: Node| t.canonical() && #[trigger] t.text() == expr@ ==> r == evaluated(t.value()),
{
    proof {
        assert forall|t: Node| t.canonical() && #[trigger] t.text() == expr@ implies evaluate_spec(
            expr@,
        ) == evaluated(t.value()) by {
            lemma_evaluate_text(t);
        }
    }
    let tokens = match lexer(expr) {
        Ok(tokens) => tokens,
        Err(e) => {
            return Err(CalcError::Lex(e));
        },
    };
    let root = match parse(tokens) {
        Ok(root) => root,
        Err(e) => {
            return Err(CalcError::Parse(e));
        },
    };
    match root.eval() {
        Ok(v) => Ok(v),
        Err(e) => Err(CalcError::Eval(e)),
    }
}

} // verus!
