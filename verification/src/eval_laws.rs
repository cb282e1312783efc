//! What holds of every evaluation: a value is the exact result of integer
//! arithmetic, a value is owed exactly where every result fits and no
//! divisor is zero, and an error in a part is an error of the whole.
use crate::grammar::Shape;
use crate::lexer::{fits_i32, Token};
use crate::parser::{apply, quotient, EvalError, Expr, Node};
use vstd::prelude::*;

verus! {

/// The value of a node follows its shape.
pub proof fn lemma_value_by_shape(t: Node)
    ensures
        t.value() == match t.shape() {
            Shape::Literal(n) => Ok(n),
            Shape::Group(inner) => inner.value(),
            Shape::Binary(op, l, r) => apply(op, l.value(), r.value()),
        },
{
    match t {
        Node::Num(e) => {},
        Node::Add(e) => {},
        Node::Minus(e) => {},
        Node::Multi(e) => {},
        Node::Div(e) => {},
        Node::Par(e) => {},
    }
}

impl Node {
    /// The value of the tree in unbounded integer arithmetic, with
    /// quotients rounded toward zero.
    pub open spec fn exact(self) -> int
        decreases self,
    {
        match self.shape() {
            Shape::Literal(n) => n as int,
            Shape::Group(inner) => inner.exact(),
            Shape::Binary(op, l, r) => match op {
                Token::Add => l.exact() + r.exact(),
                Token::Minus => l.exact() - r.exact(),
                Token::Multi => l.exact() * r.exact(),
                _ => quotient(l.exact(), r.exact()),
            },
        }
    }

    /// Whether the tree can be evaluated: no divisor in it is zero, and the
    /// exact value of each of its parts fits in an `i32`.
    pub open spec fn sound(self) -> bool
        decreases self,
    {
        match self.shape() {
            Shape::Literal(_) => true,
            Shape::Group(inner) => inner.sound(),
            Shape::Binary(op, l, r) => {
                &&& l.sound()
                &&& r.sound()
                &&& op is Div ==> r.exact() != 0
                &&& fits_i32(self.exact())
            },
        }
    }

    /// Whether `part` is the tree itself or a tree inside it.
    pub open spec fn has_part(self, part: Node) -> bool
        decreases self,
    {
        self == part || match self.shape() {
            Shape::Literal(_) => false,
            Shape::Group(inner) => inner.has_part(part),
            Shape::Binary(_, l, r) => l.has_part(part) || r.has_part(part),
        }
    }
}

/// Evaluation is exact integer arithmetic: a tree has a value exactly
/// where it is sound, and the value is then its exact value.
pub proof fn lemma_value_is_exact(t: Node)
    ensures
        t.value() is Ok <==> t.sound(),
        t.value() matches Ok(v) ==> v == t.exact(),
    decreases t,
{
    match t.shape() {
        Shape::Literal(_) => {},
        Shape::Group(inner) => {
            lemma_value_is_exact(inner);
        },
        Shape::Binary(_, l, r) => {
            lemma_value_is_exact(l);
            lemma_value_is_exact(r);
        },
    }
}

/// A division by zero always fails: where the divisor evaluates to zero,
/// the quotient has no value, and the error is the division by zero unless
/// the dividend fails first.
pub proof fn lemma_division_by_zero(l: Node, r: Node)
    requires
        r.value() == Ok::<i32, EvalError>(0),
    ensures
        Node::binary(Token::Div, l, r).value() is Err,
        l.value() is Ok ==> Node::binary(Token::Div, l, r).value() == Err::<i32, EvalError>(
            EvalError::DivisionByZero,
        ),
{
}

/// An error in a part is an error of the whole: a tree with a part that
/// has no value has no value.
pub proof fn lemma_error_spreads(t: Node, part: Node)
    requires
        t.has_part(part),
        part.value() is Err,
    ensures
        t.value() is Err,
    decreases t,
{
    if t != part {
        match t.shape() {
            Shape::Literal(_) => {},
            Shape::Group(inner) => {
                lemma_error_spreads(inner, part);
            },
            Shape::Binary(_, l, r) => {
                if l.has_part(part) {
                    lemma_error_spreads(l, part);
                } else {
                    lemma_error_spreads(r, part);
                }
            },
        }
    }
}

} // verus!
