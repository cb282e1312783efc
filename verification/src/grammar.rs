//! The infix notation of expression trees: which trees need no further
//! parentheses, and how a tree is written as tokens and as text.
use crate::decimal::decimal;
use crate::lexer::Token;
use crate::parser::Node;
use vstd::prelude::*;

verus! {

/// The three kinds of node, with the operator of a binary node as a token.
pub enum Shape {
    Literal(i32),
    Binary(Token, Node, Node),
    Group(Node),
}

/// The character that is tokenized to the operator `op`.
pub open spec fn operator_char(op: Token) -> char
    recommends
        op.is_operator(),
{
    match op {
        Token::Add => '+',
        Token::Minus => '-',
        Token::Multi => '*',
        _ => '/',
    }
}

impl Node {
    /// The kind of the node, with its parts.
    pub open spec fn shape(self) -> Shape {
        match self {
            Node::Num(e) => Shape::Literal(e.0),
            Node::Add(e) => Shape::Binary(Token::Add, *e.left, *e.right),
            Node::Minus(e) => Shape::Binary(Token::Minus, *e.left, *e.right),
            Node::Multi(e) => Shape::Binary(Token::Multi, *e.left, *e.right),
            Node::Div(e) => Shape::Binary(Token::Div, *e.left, *e.right),
            Node::Par(e) => Shape::Group(*e.inner),
        }
    }

    /// How tightly the node binds: the rank of its operator, and more than
    /// any rank for a literal and a group.
    pub open spec fn strength(self) -> int {
        match self.shape() {
            Shape::Binary(op, _, _) => op.rank(),
            _ => 3,
        }
    }

    /// Whether the tree can be written in infix notation without adding
    /// parentheses: the left operand of an operator binds at least as
    /// tightly as the operator, the right operand more tightly, so that
    /// operators of one rank associate to the left.
    pub open spec fn canonical(self) -> bool
        decreases self,
    {
        match self.shape() {
            Shape::Literal(_) => true,
            Shape::Group(inner) => inner.canonical(),
            Shape::Binary(op, l, r) => {
                &&& l.canonical()
                &&& r.canonical()
                &&& l.strength() >= op.rank()
                &&& r.strength() > op.rank()
            },
        }
    }

    /// The tree that stands for the group of `self` behind a minus sign:
    /// the group subtracted from zero, in a group of its own.
    pub open spec fn negation(self) -> Node {
        Node::group(Node::binary(Token::Minus, Node::literal(0), Node::group(self)))
    }

    /// The tree in infix notation, as tokens.
    pub open spec fn infix(self) -> Seq<Token>
        decreases self,
    {
        match self.shape() {
            Shape::Literal(n) => seq![Token::Num(n)],
            Shape::Group(inner) => seq![Token::LeftPar] + inner.infix() + seq![Token::RightPar],
            Shape::Binary(op, l, r) => l.infix() + seq![op] + r.infix(),
        }
    }

    /// The tree in infix notation, as text without blanks.
    pub open spec fn text(self) -> Seq<char>
        decreases self,
    {
        match self.shape() {
            Shape::Literal(n) => decimal(n as int),
            Shape::Group(inner) => seq!['('] + inner.text() + seq![')'],
            Shape::Binary(op, l, r) => l.text() + seq![operator_char(op)] + r.text(),
        }
    }
}

} // verus!
