//! Expression trees, their evaluation, and the operator-precedence parser
//! that builds them from tokens.
//!
//! The parser keeps two stacks: the operands, which are trees, and the
//! pending operators and opening parentheses. Its meaning is the state
//! machine [`Stacks`]; [`parse`] is proved to compute exactly
//! [`parse_spec`]. Evaluation is checked `i32` arithmetic: a division by
//! zero and a result out of range are errors, never values.
use crate::decimal::{append_decimal, decimal};
use crate::lexer::{fits_i32, Token};
use crate::parser_laws::lemma_parse_infix;
use vstd::prelude::*;

verus! {

/// Why a tree has no value.
#[derive(Debug, PartialEq, Eq, Clone, Copy, Structural)]
pub enum EvalError {
    /// A divisor evaluated to zero.
    DivisionByZero,
    /// A result does not fit in an `i32`.
    Overflow,
    /// The root holds no tree.
    EmptyRoot,
}

/// Why a sequence of tokens is not an expression.
#[derive(Debug, PartialEq, Eq, Clone, Copy, Structural)]
pub enum ParseError {
    /// A token that never stands on the operator stack was found there.
    UnexpectedToken,
    /// An operator or a group lacks an operand.
    StackUnderflow,
    /// A `)` without a `(` before it.
    UnmatchedParen,
    /// A `(` that is never closed.
    MismatchedParen,
    /// The tokens leave no operand, or more than one.
    MalformedExpression,
}

/// The value `v` as an `i32`, where it fits.
pub open spec fn checked(v: int) -> Result<i32, EvalError> {
    if fits_i32(v) {
        Ok(v as i32)
    } else {
        Err(EvalError::Overflow)
    }
}

/// The quotient of `a` by `b`, rounded toward zero.
pub open spec fn quotient(a: int, b: int) -> int
    recommends
        b != 0,
{
    if a >= 0 && b > 0 {
        a / b
    } else if a < 0 && b < 0 {
        (-a) / (-b)
    } else if a < 0 {
        -((-a) / b)
    } else {
        -(a / (-b))
    }
}

/// The values of two operands, the left one first: the first error wins.
pub open spec fn operands(l: Result<i32, EvalError>, r: Result<i32, EvalError>) -> Result<
    (i32, i32),
    EvalError,
> {
    match l {
        Err(e) => Err(e),
        Ok(a) => match r {
            Err(e) => Err(e),
            Ok(b) => Ok((a, b)),
        },
    }
}

/// The result of the operator `op` on the values of its operands: checked
/// `i32` arithmetic, with the quotient rounded toward zero.
pub open spec fn apply(op: Token, l: Result<i32, EvalError>, r: Result<i32, EvalError>) -> Result<
    i32,
    EvalError,
>
    recommends
        op.is_operator(),
{
    match operands(l, r) {
        Err(e) => Err(e),
        Ok((a, b)) => match op {
            Token::Add => checked(a + b),
            Token::Minus => checked(a - b),
            Token::Multi => checked(a * b),
            _ => if b == 0 {
                Err(EvalError::DivisionByZero)
            } else {
                checked(quotient(a as int, b as int))
            },
        },
    }
}

/// What every node of an expression tree offers.
pub trait Expr {
    /// The value of the expression, or the first error that its evaluation
    /// meets, depth first and from left to right.
    spec fn value(&self) -> Result<i32, EvalError>;

    /// The expression written out with the names of its nodes, such as
    /// `{Add: {Num: 1} ({Num: 2})}`.
    spec fn notation(&self) -> Seq<char>;

    /// Writes the expression out with the names of its nodes.
    fn etype(&self) -> (s: String)
        ensures
            s@ == self.notation(),
    ;

    /// Evaluates the expression.
    fn eval(&self) -> (r: Result<i32, EvalError>)
        ensures
            r == self.value(),
    ;
}

/// A literal.
#[derive(Debug, PartialEq, Eq)]
pub struct Num(pub i32);

/// A sum.
#[derive(Debug, PartialEq, Eq)]
pub struct Add {
    pub left: Box<Node>,
    pub right: Box<Node>,
}

/// A difference.
#[derive(Debug, PartialEq, Eq)]
pub struct Minus {
    pub left: Box<Node>,
    pub right: Box<Node>,
}

/// A product.
#[derive(Debug, PartialEq, Eq)]
pub struct Multi {
    pub left: Box<Node>,
    pub right: Box<Node>,
}

/// A quotient, rounded toward zero.
#[derive(Debug, PartialEq, Eq)]
pub struct Div {
    pub left: Box<Node>,
    pub right: Box<Node>,
}

/// A parenthesized expression.
#[derive(Debug, PartialEq, Eq)]
pub struct Par {
    pub inner: Box<Node>,
}

/// The result of a parse: the tree of the whole expression.
#[derive(Debug, PartialEq, Eq)]
pub struct Root {
    pub child: Option<Box<Node>>,
}

/// An expression tree. Each node owns its children.
#[derive(Debug, PartialEq, Eq)]
pub enum Node {
    Num(Num),
    Add(Add),
    Minus(Minus),
    Multi(Multi),
    Div(Div),
    Par(Par),
}

impl Expr for Num {
    open spec fn value(&self) -> Result<i32, EvalError> {
        Ok(self.0)
    }

    open spec fn notation(&self) -> Seq<char> {
        "{Num: "@ + decimal(self.0 as int) + "}"@
    }

    fn etype(&self) -> (s: String) {
        let mut s = String::from_str("{Num: ");
        append_decimal(&mut s, self.0);
        s.append("}");
        s
    }

    fn eval(&self) -> (r: Result<i32, EvalError>) {
        Ok(self.0)
    }
}

impl Add {
    /// The sum of two literal zeros.
    pub fn default() -> (r: Self)
        ensures
            r.left == Node::literal(0),
            r.right == Node::literal(0),
    {
        Add { left: Box::new(Node::Num(Num(0))), right: Box::new(Node::Num(Num(0))) }
    }

    /// The sum of `left` and `right`.
    pub fn new(left: Box<Node>, right: Box<Node>) -> (r: Self)
        ensures
            r.left == left,
            r.right == right,
    {
        Add { left, right }
    }
}

impl Expr for Add {
    open spec fn value(&self) -> Result<i32, EvalError>
        decreases self,
    {
        apply(Token::Add, self.left.value(), self.right.value())
    }

    open spec fn notation(&self) -> Seq<char>
        decreases self,
    {
        "{Add: "@ + self.left.notation() + " "@ + self.right.notation() + "}"@
    }

    fn etype(&self) -> (s: String)
        decreases self,
    {
        let mut s = String::from_str("{Add: ");
        let left = self.left.etype();
        s.append(left.as_str());
        s.append(" ");
        let right = self.right.etype();
        s.append(right.as_str());
        s.append("}");
        s
    }

    fn eval(&self) -> (r: Result<i32, EvalError>)
        decreases self,
    {
        let a = match self.left.eval() {
            Ok(a) => a,
            Err(e) => {
                return Err(e);
            },
        };
        let b = match self.right.eval() {
            Ok(b) => b,
            Err(e) => {
                return Err(e);
            },
        };
        match a.checked_add(b) {
            Some(v) => Ok(v),
            None => Err(EvalError::Overflow),
        }
    }
}

impl Minus {
    /// The difference of two literal zeros.
    pub fn default() -> (r: Self)
        ensures
            r.left == Node::literal(0),
            r.right == Node::literal(0),
    {
        Minus { left: Box::new(Node::Num(Num(0))), right: Box::new(Node::Num(Num(0))) }
    }

    /// The difference of `left` and `right`.
    pub fn new(left: Box<Node>, right: Box<Node>) -> (r: Self)
        ensures
            r.left == left,
            r.right == right,
    {
        Minus { left, right }
    }
}

impl Expr for Minus {
    open spec fn value(&self) -> Result<i32, EvalError>
        decreases self,
    {
        apply(Token::Minus, self.left.value(), self.right.value())
    }

    open spec fn notation(&self) -> Seq<char>
        decreases self,
    {
        "{Minus: "@ + self.left.notation() + " "@ + self.right.notation() + "}"@
    }

    fn etype(&self) -> (s: String)
        decreases self,
    {
        let mut s = String::from_str("{Minus: ");
        let left = self.left.etype();
        s.append(left.as_str());
        s.append(" ");
        let right = self.right.etype();
        s.append(right.as_str());
        s.append("}");
        s
    }

    fn eval(&self) -> (r: Result<i32, EvalError>)
        decreases self,
    {
        let a = match self.left.eval() {
            Ok(a) => a,
            Err(e) => {
                return Err(e);
            },
        };
        let b = match self.right.eval() {
            Ok(b) => b,
            Err(e) => {
                return Err(e);
            },
        };
        match a.checked_sub(b) {
            Some(v) => Ok(v),
            None => Err(EvalError::Overflow),
        }
    }
}

impl Multi {
    /// The product of two literal zeros.
    pub fn default() -> (r: Self)
        ensures
            r.left == Node::literal(0),
            r.right == Node::literal(0),
    {
        Multi { left: Box::new(Node::Num(Num(0))), right: Box::new(Node::Num(Num(0))) }
    }

    /// The product of `left` and `right`.
    pub fn new(left: Box<Node>, right: Box<Node>) -> (r: Self)
        ensures
            r.left == left,
            r.right == right,
    {
        Multi { left, right }
    }
}

impl Expr for Multi {
    open spec fn value(&self) -> Result<i32, EvalError>
        decreases self,
    {
        apply(Token::Multi, self.left.value(), self.right.value())
    }

    open spec fn notation(&self) -> Seq<char>
        decreases self,
    {
        "{Multi: "@ + self.left.notation() + " "@ + self.right.notation() + "}"@
    }

    fn etype(&self) -> (s: String)
        decreases self,
    {
        let mut s = String::from_str("{Multi: ");
        let left = self.left.etype();
        s.append(left.as_str());
        s.append(" ");
        let right = self.right.etype();
        s.append(right.as_str());
        s.append("}");
        s
    }

    fn eval(&self) -> (r: Result<i32, EvalError>)
        decreases self,
    {
        let a = match self.left.eval() {
            Ok(a) => a,
            Err(e) => {
                return Err(e);
            },
        };
        let b = match self.right.eval() {
            Ok(b) => b,
            Err(e) => {
                return Err(e);
            },
        };
        match a.checked_mul(b) {
            Some(v) => Ok(v),
            None => Err(EvalError::Overflow),
        }
    }
}

impl Div {
    /// The quotient of two literal zeros.
    pub fn default() -> (r: Self)
        ensures
            r.left == Node::literal(0),
            r.right == Node::literal(0),
    {
        Div { left: Box::new(Node::Num(Num(0))), right: Box::new(Node::Num(Num(0))) }
    }

    /// The quotient of `left` and `right`.
    pub fn new(left: Box<Node>, right: Box<Node>) -> (r: Self)
        ensures
            r.left == left,
            r.right == right,
    {
        Div { left, right }
    }
}

impl Expr for Div {
    open spec fn value(&self) -> Result<i32, EvalError>
        decreases self,
    {
        apply(Token::Div, self.left.value(), self.right.value())
    }

    open spec fn notation(&self) -> Seq<char>
        decreases self,
    {
        "{Div: "@ + self.left.notation() + " "@ + self.right.notation() + "}"@
    }

    fn etype(&self) -> (s: String)
        decreases self,
    {
        let mut s = String::from_str("{Div: ");
        let left = self.left.etype();
        s.append(left.as_str());
        s.append(" ");
        let right = self.right.etype();
        s.append(right.as_str());
        s.append("}");
        s
    }

    fn eval(&self) -> (r: Result<i32, EvalError>)
        decreases self,
    {
        let a = match self.left.eval() {
            Ok(a) => a,
            Err(e) => {
                return Err(e);
            },
        };
        let b = match self.right.eval() {
            Ok(b) => b,
            Err(e) => {
                return Err(e);
            },
        };
        if b == 0 {
            Err(EvalError::DivisionByZero)
        } else {
            match a.checked_div(b) {
                Some(v) => Ok(v),
                None => Err(EvalError::Overflow),
            }
        }
    }
}

impl Par {
    /// The group around the literal zero.
    pub fn default() -> (r: Self)
        ensures
            r.inner == Node::literal(0),
    {
        Par { inner: Box::new(Node::Num(Num(0))) }
    }

    /// The group around `inner`.
    pub fn new(inner: Box<Node>) -> (r: Self)
        ensures
            r.inner == inner,
    {
        Par { inner }
    }
}

impl Expr for Par {
    open spec fn value(&self) -> Result<i32, EvalError>
        decreases self,
    {
        self.inner.value()
    }

    open spec fn notation(&self) -> Seq<char>
        decreases self,
    {
        "("@ + self.inner.notation() + ")"@
    }

    fn etype(&self) -> (s: String)
        decreases self,
    {
        let mut s = String::from_str("(");
        let inner = self.inner.etype();
        s.append(inner.as_str());
        s.append(")");
        s
    }

    fn eval(&self) -> (r: Result<i32, EvalError>)
        decreases self,
    {
        self.inner.eval()
    }
}

impl Root {
    /// A root that holds no tree yet.
    pub fn new() -> (r: Self)
        ensures
            r.child is None,
    {
        Root { child: None }
    }

    /// The root that holds the tree `n`.
    pub open spec fn of(n: Node) -> Root {
        Root { child: Some(Box::new(n)) }
    }
}

impl Expr for Root {
    open spec fn value(&self) -> Result<i32, EvalError> {
        match self.child {
            Some(c) => c.value(),
            None => Err(EvalError::EmptyRoot),
        }
    }

    /// An empty root is written `{{Root: None}}`, with two braces on each
    /// side.
    open spec fn notation(&self) -> Seq<char> {
        match self.child {
            Some(c) => "{Root: "@ + c.notation() + "}"@,
            None => "{{Root: None}}"@,
        }
    }

    fn etype(&self) -> (s: String) {
        match &self.child {
            Some(c) => {
                let mut s = String::from_str("{Root: ");
                let child = c.etype();
                s.append(child.as_str());
                s.append("}");
                s
            },
            None => String::from_str("{{Root: None}}"),
        }
    }

    fn eval(&self) -> (r: Result<i32, EvalError>) {
        match &self.child {
            Some(c) => c.eval(),
            None => Err(EvalError::EmptyRoot),
        }
    }
}

impl Node {
    /// The node of the literal `n`.
    pub open spec fn literal(n: i32) -> Node {
        Node::Num(Num(n))
    }

    /// The node of the operator `op` over two operands.
    pub open spec fn binary(op: Token, l: Node, r: Node) -> Node
        recommends
            op.is_operator(),
    {
        match op {
            Token::Add => Node::Add(Add { left: Box::new(l), right: Box::new(r) }),
            Token::Minus => Node::Minus(Minus { left: Box::new(l), right: Box::new(r) }),
            Token::Multi => Node::Multi(Multi { left: Box::new(l), right: Box::new(r) }),
            _ => Node::Div(Div { left: Box::new(l), right: Box::new(r) }),
        }
    }

    /// The node of the group around `inner`.
    pub open spec fn group(inner: Node) -> Node {
        Node::Par(Par { inner: Box::new(inner) })
    }
}

impl Expr for Node {
    open spec fn value(&self) -> Result<i32, EvalError>
        decreases self,
    {
        match self {
            Node::Num(e) => e.value(),
            Node::Add(e) => e.value(),
            Node::Minus(e) => e.value(),
            Node::Multi(e) => e.value(),
            Node::Div(e) => e.value(),
            Node::Par(e) => e.value(),
        }
    }

    open spec fn notation(&self) -> Seq<char>
        decreases self,
    {
        match self {
            Node::Num(e) => e.notation(),
            Node::Add(e) => e.notation(),
            Node::Minus(e) => e.notation(),
            Node::Multi(e) => e.notation(),
            Node::Div(e) => e.notation(),
            Node::Par(e) => e.notation(),
        }
    }

    fn etype(&self) -> (s: String)
        decreases self,
    {
        match self {
            Node::Num(e) => e.etype(),
            Node::Add(e) => e.etype(),
            Node::Minus(e) => e.etype(),
            Node::Multi(e) => e.etype(),
            Node::Div(e) => e.etype(),
            Node::Par(e) => e.etype(),
        }
    }

    fn eval(&self) -> (r: Result<i32, EvalError>)
        decreases self,
    {
        match self {
            Node::Num(e) => e.eval(),
            Node::Add(e) => e.eval(),
            Node::Minus(e) => e.eval(),
            Node::Multi(e) => e.eval(),
            Node::Div(e) => e.eval(),
            Node::Par(e) => e.eval(),
        }
    }
}

/// The node that the stacked token `t` builds from the top of the operand
/// stack, and the operands that are left: an operator takes two operands,
/// the right one on top, and an opening parenthesis wraps one.
pub open spec fn node_of(t: Token, operands: Seq<Node>) -> Result<(Node, Seq<Node>), ParseError> {
    match t {
        Token::Num(_) | Token::RightPar => Err(ParseError::UnexpectedToken),
        Token::LeftPar => if operands.len() < 1 {
            Err(ParseError::StackUnderflow)
        } else {
            Ok((Node::group(operands.last()), operands.drop_last()))
        },
        _ => if operands.len() < 2 {
            Err(ParseError::StackUnderflow)
        } else {
            Ok(
                (
                    Node::binary(
                        t,
                        operands[operands.len() - 2],
                        operands[operands.len() - 1],
                    ),
                    operands.take(operands.len() - 2),
                ),
            )
        },
    }
}

/// The two stacks of the parser.
pub struct Stacks {
    /// The trees built so far, the latest last.
    pub operands: Seq<Node>,
    /// The operators and opening parentheses that wait, the latest last.
    pub operators: Seq<Token>,
}

impl Stacks {
    /// The stacks before the first token.
    pub open spec fn empty() -> Stacks {
        Stacks { operands: Seq::empty(), operators: Seq::empty() }
    }

    /// Whether a binary operator of rank `level` or more is on top.
    pub open spec fn reducible(self, level: int) -> bool {
        self.operators.len() > 0 && self.operators.last().is_operator()
            && self.operators.last().rank() >= level
    }

    /// Pops the top of the operator stack and pushes the node it builds.
    pub open spec fn reduce(self) -> Result<Stacks, ParseError>
        recommends
            self.operators.len() > 0,
    {
        match node_of(self.operators.last(), self.operands) {
            Ok((node, rest)) => Ok(
                Stacks { operands: rest.push(node), operators: self.operators.drop_last() },
            ),
            Err(e) => Err(e),
        }
    }

    /// Reduces as long as a binary operator of rank `level` or more is on
    /// top. An opening parenthesis stops it whatever the level.
    pub open spec fn unwind(self, level: int) -> Result<Stacks, ParseError>
        decreases self.operators.len(),
    {
        if self.reducible(level) {
            match self.reduce() {
                Ok(st) => st.unwind(level),
                Err(e) => Err(e),
            }
        } else {
            Ok(self)
        }
    }

    /// Takes one token.
    pub open spec fn feed(self, t: Token) -> Result<Stacks, ParseError> {
        match t {
            Token::Num(n) => Ok(Stacks { operands: self.operands.push(Node::literal(n)), ..self }),
            Token::LeftPar => Ok(Stacks { operators: self.operators.push(t), ..self }),
            Token::RightPar => match self.unwind(1) {
                Err(e) => Err(e),
                Ok(st) => if st.operators.len() == 0 {
                    Err(ParseError::UnmatchedParen)
                } else {
                    st.reduce()
                },
            },
            _ => match self.unwind(t.rank()) {
                Err(e) => Err(e),
                Ok(st) => Ok(Stacks { operators: st.operators.push(t), ..st }),
            },
        }
    }

    /// Takes the tokens of `ts` in order. The first error ends the parse.
    pub open spec fn feed_all(self, ts: Seq<Token>) -> Result<Stacks, ParseError>
        decreases ts.len(),
    {
        if ts.len() == 0 {
            Ok(self)
        } else {
            match self.feed(ts.first()) {
                Ok(st) => st.feed_all(ts.drop_first()),
                Err(e) => Err(e),
            }
        }
    }

    /// Ends the parse: what waits is reduced, no parenthesis may be left
    /// open, and one operand must remain.
    pub open spec fn finish(self) -> Result<Root, ParseError> {
        match self.unwind(1) {
            Err(e) => Err(e),
            Ok(st) => if st.operators.len() > 0 {
                Err(ParseError::MismatchedParen)
            } else if st.operands.len() != 1 {
                Err(ParseError::MalformedExpression)
            } else {
                Ok(Root::of(st.operands[0]))
            },
        }
    }
}

/// The tree of the tokens `ts`, or the first error of their parse.
pub open spec fn parse_spec(ts: Seq<Token>) -> Result<Root, ParseError> {
    match Stacks::empty().feed_all(ts) {
        Ok(st) => st.finish(),
        Err(e) => Err(e),
    }
}

/// A parse of `a` followed by `b` is a parse of `a` continued by one of `b`.
pub proof fn lemma_feed_all_concat(st: Stacks, a: Seq<Token>, b: Seq<Token>)
    ensures
        st.feed_all(a + b) == match st.feed_all(a) {
            Ok(mid) => mid.feed_all(b),
            Err(e) => Err(e),
        },
    decreases a.len(),
{
    if a.len() > 0 {
        assert((a + b).drop_first() =~= a.drop_first() + b);
        match st.feed(a.first()) {
            Ok(next) => lemma_feed_all_concat(next, a.drop_first(), b),
            Err(_) => {},
        }
    }
}

/// A parse of `ts` followed by the token `t` is a parse of `ts` and one
/// step.
pub proof fn lemma_feed_all_push(st: Stacks, ts: Seq<Token>, t: Token)
    ensures
        st.feed_all(ts.push(t)) == match st.feed_all(ts) {
            Ok(mid) => mid.feed(t),
            Err(e) => Err(e),
        },
{
    lemma_feed_all_concat(st, ts, seq![t]);
    assert(ts.push(t) =~= ts + seq![t]);
    match st.feed_all(ts) {
        Ok(mid) => {
            assert(seq![t].drop_first() =~= Seq::<Token>::empty());
            match mid.feed(t) {
                Ok(next) => {
                    assert(next.feed_all(Seq::<Token>::empty()) == Ok::<Stacks, ParseError>(next));
                },
                Err(_) => {},
            }
        },
        Err(_) => {},
    }
}

/// Builds the node of a stacked token from the top of the operand stack. On
/// an error the stack is left as it was.
pub fn token_2_node(t: Token, lf_nds: &mut Vec<Node>) -> (r: Result<Node, ParseError>)
    ensures
        match node_of(t, old(lf_nds)@) {
            Ok((node, rest)) => r == Ok::<Node, ParseError>(node) && final(lf_nds)@ == rest,
            Err(e) => r == Err::<Node, ParseError>(e) && final(lf_nds)@ == old(lf_nds)@,
        },
{
    match t {
        Token::Num(_) | Token::RightPar => Err(ParseError::UnexpectedToken),
        Token::LeftPar => {
            match lf_nds.pop() {
                Some(inner) => Ok(Node::Par(Par::new(Box::new(inner)))),
                None => Err(ParseError::StackUnderflow),
            }
        },
        _ => {
            if lf_nds.len() < 2 {
                return Err(ParseError::StackUnderflow);
            }
            let right = lf_nds.pop().unwrap();
            let left = lf_nds.pop().unwrap();
            let (left, right) = (Box::new(left), Box::new(right));
            Ok(
                match t {
                    Token::Add => Node::Add(Add::new(left, right)),
                    Token::Minus => Node::Minus(Minus::new(left, right)),
                    Token::Multi => Node::Multi(Multi::new(left, right)),
                    _ => Node::Div(Div::new(left, right)),
                },
            )
        },
    }
}

/// Pops the top of the operator stack and pushes the node it builds.
fn reduce_top(lf_nds: &mut Vec<Node>, non_lf_nds: &mut Vec<Token>) -> (r: Result<
    (),
    ParseError,
>)
    requires
        old(non_lf_nds).len() > 0,
    ensures
        match (Stacks { operands: old(lf_nds)@, operators: old(non_lf_nds)@ }).reduce() {
            Ok(st) => r is Ok && final(lf_nds)@ == st.operands && final(non_lf_nds)@
                == st.operators,
            Err(e) => r == Err::<(), ParseError>(e),
        },
{
    let prev = non_lf_nds.pop().unwrap();
    match token_2_node(prev, lf_nds) {
        Ok(node) => {
            lf_nds.push(node);
            Ok(())
        },
        Err(e) => Err(e),
    }
}

/// Reduces as long as a binary operator of rank `level` or more is on top.
fn unwind(lf_nds: &mut Vec<Node>, non_lf_nds: &mut Vec<Token>, level: i32) -> (r: Result<
    (),
    ParseError,
>)
    ensures
        match (Stacks { operands: old(lf_nds)@, operators: old(non_lf_nds)@ }).unwind(
            level as int,
        ) {
            Ok(st) => r is Ok && final(lf_nds)@ == st.operands && final(non_lf_nds)@
                == st.operators,
            Err(e) => r == Err::<(), ParseError>(e),
        },
{
    let ghost goal = (Stacks { operands: lf_nds@, operators: non_lf_nds@ }).unwind(level as int);
    loop
        invariant
            goal == (Stacks { operands: old(lf_nds)@, operators: old(non_lf_nds)@ }).unwind(
                level as int,
            ),
            (Stacks { operands: lf_nds@, operators: non_lf_nds@ }).unwind(level as int) == goal,
        ensures
            goal == Ok::<Stacks, ParseError>(
                Stacks { operands: lf_nds@, operators: non_lf_nds@ },
            ),
        decreases non_lf_nds.len(),
    {
        if non_lf_nds.len() == 0 {
            break ;
        }
        let prev = non_lf_nds[non_lf_nds.len() - 1];
        let stop = match prev {
            Token::Add | Token::Minus | Token::Multi | Token::Div => prev.order() < level,
            _ => true,
        };
        if stop {
            break ;
        }
        match reduce_top(lf_nds, non_lf_nds) {
            Ok(()) => {},
            Err(e) => {
                return Err(e);
            },
        }
    }
    Ok(())
}

/// Parses `tokens`: the result is [`parse_spec`] of them. Where `tokens`
/// are the infix notation of a tree that needs no further parentheses, the
/// result is that tree.
pub fn parse(tokens: Vec<Token>) -> (r: Result<Root, ParseError>)
    ensures
        r == parse_spec(tokens@),
        forall|t: Node| t.canonical() && #[trigger] t.infix() == tokens@ ==> r == Ok::<
            Root,
            ParseError,
        >(Root::of(t)),
{
    proof {
        assert forall|t: Node| t.canonical() && #[trigger] t.infix() == tokens@ implies parse_spec(
            tokens@,
        ) == Ok::<Root, ParseError>(Root::of(t)) by {
            lemma_parse_infix(t);
        }
    }
    let mut lf_nds: Vec<Node> = Vec::new();
    let mut non_lf_nds: Vec<Token> = Vec::new();
    let mut i: usize = 0;
    while i < tokens.len()
        invariant
            0 <= i <= tokens.len(),
            Stacks::empty().feed_all(tokens@.take(i as int)) == Ok::<Stacks, ParseError>(
                Stacks { operands: lf_nds@, operators: non_lf_nds@ },
            ),
            forall|t: Node|
                t.canonical() && #[trigger] t.infix() == tokens@ ==> parse_spec(tokens@) == Ok::<
                    Root,
                    ParseError,
                >(Root::of(t)),
        decreases tokens.len() - i,
    {
        let t = tokens[i];
        proof {
            let rest = tokens@.skip(i as int + 1);
            assert(tokens@.take(i as int + 1) =~= tokens@.take(i as int).push(t));
            assert(tokens@ =~= tokens@.take(i as int + 1) + rest);
            lemma_feed_all_push(Stacks::empty(), tokens@.take(i as int), t);
            lemma_feed_all_concat(Stacks::empty(), tokens@.take(i as int + 1), rest);
        }
        match t {
            Token::Num(n) => {
                lf_nds.push(Node::Num(Num(n)));
            },
            Token::LeftPar => {
                non_lf_nds.push(t);
            },
            Token::RightPar => {
                match unwind(&mut lf_nds, &mut non_lf_nds, 1) {
                    Ok(()) => {},
                    Err(e) => {
                        return Err(e);
                    },
                }
                if non_lf_nds.len() == 0 {
                    return Err(ParseError::UnmatchedParen);
                }
                match reduce_top(&mut lf_nds, &mut non_lf_nds) {
                    Ok(()) => {},
                    Err(e) => {
                        return Err(e);
                    },
                }
            },
            _ => {
                match unwind(&mut lf_nds, &mut non_lf_nds, t.order()) {
                    Ok(()) => {},
                    Err(e) => {
                        return Err(e);
                    },
                }
                non_lf_nds.push(t);
            },
        }
        i = i + 1;
    }
    proof {
        assert(tokens@.take(i as int) =~= tokens@);
    }
    match unwind(&mut lf_nds, &mut non_lf_nds, 1) {
        Ok(()) => {},
        Err(e) => {
            return Err(e);
        },
    }
    if non_lf_nds.len() > 0 {
        return Err(ParseError::MismatchedParen);
    }
    if lf_nds.len() != 1 {
        return Err(ParseError::MalformedExpression);
    }
    let mut root = Root::new();
    root.child = Some(Box::new(lf_nds.pop().unwrap()));
    Ok(root)
}

} // verus!
