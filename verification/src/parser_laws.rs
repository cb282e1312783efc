//! What holds of every parse: a tree written in infix notation is read back
//! as the same tree, a group around an expression is a group around its
//! tree, and unbalanced parentheses fail.
use crate::grammar::Shape;
use crate::lexer::Token;
use crate::parser::{lemma_feed_all_concat, parse_spec, Expr, Node, ParseError, Root, Stacks};
use vstd::prelude::*;

verus! {

impl Stacks {
    /// The stacks with the tree `n` pushed as an operand.
    pub open spec fn with_operand(self, n: Node) -> Stacks {
        Stacks { operands: self.operands.push(n), ..self }
    }

    /// The stacks with the token `t` pushed as an operator.
    pub open spec fn with_operator(self, t: Token) -> Stacks {
        Stacks { operators: self.operators.push(t), ..self }
    }
}

/// A parse of one token is one step.
pub proof fn lemma_feed_all_one(st: Stacks, t: Token)
    ensures
        st.feed_all(seq![t]) == st.feed(t),
{
    assert(seq![t].drop_first() =~= Seq::<Token>::empty());
    match st.feed(t) {
        Ok(next) => {
            assert(next.feed_all(Seq::<Token>::empty()) == Ok::<Stacks, ParseError>(next));
        },
        Err(_) => {},
    }
}

/// Feeding the infix notation of a tree `t`, where no operator that binds
/// as tightly as `t` waits on top, amounts to pushing `t` as an operand:
/// whatever unwinding comes next, at a level that `t` withstands, sees the
/// same stacks.
pub proof fn lemma_feed_infix(t: Node, st: Stacks, level: int)
    requires
        t.canonical(),
        !st.reducible(t.strength()),
        level <= t.strength(),
    ensures
        st.feed_all(t.infix()) matches Ok(end) && end.unwind(level) == st.with_operand(t).unwind(
            level,
        ),
    decreases t,
{
    match t.shape() {
        Shape::Literal(n) => {
            lemma_feed_all_one(st, Token::Num(n));
        },
        Shape::Group(inner) => {
            let opened = st.with_operator(Token::LeftPar);
            let filled = opened.with_operand(inner);
            lemma_feed_all_concat(st, seq![Token::LeftPar] + inner.infix(), seq![Token::RightPar]);
            lemma_feed_all_concat(st, seq![Token::LeftPar], inner.infix());
            lemma_feed_all_one(st, Token::LeftPar);
            lemma_feed_infix(inner, opened, 1);
            let mid = opened.feed_all(inner.infix())->Ok_0;
            lemma_feed_all_one(mid, Token::RightPar);
            assert(filled.operands.drop_last() =~= st.operands);
            assert(filled.operators.drop_last() =~= st.operators);
        },
        Shape::Binary(op, l, r) => {
            lemma_feed_all_concat(st, l.infix() + seq![op], r.infix());
            lemma_feed_all_concat(st, l.infix(), seq![op]);
            // the left operand is complete when the operator arrives
            lemma_feed_infix(l, st, op.rank());
            let after_left = st.feed_all(l.infix())->Ok_0;
            lemma_feed_all_one(after_left, op);
            let waiting = st.with_operand(l).with_operator(op);
            // the right operand binds more tightly than the operator
            lemma_feed_infix(r, waiting, level);
            let full = waiting.with_operand(r);
            assert(full.operands.take(full.operands.len() - 2) =~= st.operands);
            assert(full.operators.drop_last() =~= st.operators);
        },
    }
}

/// Parsing the infix notation of a tree that needs no further parentheses
/// gives that tree back. So the value of such an expression is the value
/// of its tree: operators of higher rank bind first, operators of one
/// rank from left to right, and groups as they are written.
pub proof fn lemma_parse_infix(t: Node)
    requires
        t.canonical(),
    ensures
        parse_spec(t.infix()) == Ok::<Root, ParseError>(Root::of(t)),
        Root::of(t).value() == t.value(),
{
    lemma_feed_infix(t, Stacks::empty(), 1);
}

impl Stacks {
    /// The stacks on top of others: `operands` lie under the operands, and
    /// `operators` under the operators.
    pub open spec fn over(self, operands: Seq<Node>, operators: Seq<Token>) -> Stacks {
        Stacks { operands: operands + self.operands, operators: operators + self.operators }
    }
}

/// Whether unwinding stops at the top of `operators`: it is empty, or its
/// top is no binary operator.
pub open spec fn is_barrier(operators: Seq<Token>) -> bool {
    operators.len() == 0 || !operators.last().is_operator()
}

/// A reduction that succeeds does the same on top of other stacks.
pub proof fn lemma_reduce_over(st: Stacks, operands: Seq<Node>, operators: Seq<Token>)
    requires
        st.operators.len() > 0,
        st.reduce() is Ok,
    ensures
        st.over(operands, operators).reduce() == Ok::<Stacks, ParseError>(
            st.reduce()->Ok_0.over(operands, operators),
        ),
{
    let low = st.over(operands, operators);
    let done = st.reduce()->Ok_0;
    assert(low.operators.drop_last() =~= operators + st.operators.drop_last());
    if st.operators.last() is LeftPar {
        assert(low.operands.drop_last().push(Node::group(st.operands.last())) =~= operands
            + done.operands);
    } else {
        let n = st.operands.len();
        let m = low.operands.len();
        assert(low.operands.take(m - 2) =~= operands + st.operands.take(n - 2));
    }
}

/// An unwinding that succeeds does the same on top of other stacks, where
/// it stops at their top.
pub proof fn lemma_unwind_over(
    st: Stacks,
    level: int,
    operands: Seq<Node>,
    operators: Seq<Token>,
)
    requires
        st.unwind(level) is Ok,
        is_barrier(operators),
    ensures
        st.over(operands, operators).unwind(level) == Ok::<Stacks, ParseError>(
            st.unwind(level)->Ok_0.over(operands, operators),
        ),
    decreases st.operators.len(),
{
    if st.reducible(level) {
        lemma_reduce_over(st, operands, operators);
        lemma_unwind_over(st.reduce()->Ok_0, level, operands, operators);
    }
}

/// A step that succeeds does the same on top of other stacks, where
/// unwinding stops at their top.
pub proof fn lemma_feed_over(st: Stacks, t: Token, operands: Seq<Node>, operators: Seq<Token>)
    requires
        st.feed(t) is Ok,
        is_barrier(operators),
    ensures
        st.over(operands, operators).feed(t) == Ok::<Stacks, ParseError>(
            st.feed(t)->Ok_0.over(operands, operators),
        ),
{
    match t {
        Token::Num(_) => {},
        Token::LeftPar => {},
        Token::RightPar => {
            lemma_unwind_over(st, 1, operands, operators);
            lemma_reduce_over(st.unwind(1)->Ok_0, operands, operators);
        },
        _ => {
            lemma_unwind_over(st, t.rank(), operands, operators);
        },
    }
}

/// A parse that succeeds does the same on top of other stacks, where
/// unwinding stops at their top.
pub proof fn lemma_feed_all_over(
    st: Stacks,
    ts: Seq<Token>,
    operands: Seq<Node>,
    operators: Seq<Token>,
)
    requires
        st.feed_all(ts) is Ok,
        is_barrier(operators),
    ensures
        st.over(operands, operators).feed_all(ts) == Ok::<Stacks, ParseError>(
            st.feed_all(ts)->Ok_0.over(operands, operators),
        ),
    decreases ts.len(),
{
    if ts.len() > 0 {
        lemma_feed_over(st, ts.first(), operands, operators);
        lemma_feed_all_over(st.feed(ts.first())->Ok_0, ts.drop_first(), operands, operators);
    }
}

/// Parentheses around an expression are a group around its tree: where
/// `ts` parses to a tree, `(` `ts` `)` parses to the group of that tree,
/// which has the value of the tree.
pub proof fn lemma_parse_group(ts: Seq<Token>)
    requires
        parse_spec(ts) is Ok,
    ensures
        parse_spec(ts)->Ok_0.child matches Some(tree) && parse_spec(
            seq![Token::LeftPar] + ts + seq![Token::RightPar],
        ) == Ok::<Root, ParseError>(Root::of(Node::group(*tree))) && Node::group(*tree).value()
            == parse_spec(ts)->Ok_0.value(),
{
    let start = Stacks::empty();
    let end = start.feed_all(ts)->Ok_0;
    let last = end.unwind(1)->Ok_0;
    let tree = last.operands[0];
    let none = Seq::<Node>::empty();
    let open = seq![Token::LeftPar];
    lemma_feed_all_concat(start, open + ts, seq![Token::RightPar]);
    lemma_feed_all_concat(start, open, ts);
    lemma_feed_all_one(start, Token::LeftPar);
    assert(start.with_operator(Token::LeftPar) == start.over(none, open));
    lemma_feed_all_over(start, ts, none, open);
    lemma_feed_all_one(end.over(none, open), Token::RightPar);
    lemma_unwind_over(end, 1, none, open);
    let low = last.over(none, open);
    let grouped = Stacks { operands: seq![Node::group(tree)], operators: Seq::empty() };
    assert(low.reduce() == Ok::<Stacks, ParseError>(grouped)) by {
        assert(low.operands.drop_last().push(Node::group(tree)) =~= grouped.operands);
        assert(low.operators.drop_last() =~= grouped.operators);
    }
}

/// The count of opening parentheses in `ts` minus that of closing ones.
pub open spec fn token_balance(ts: Seq<Token>) -> int
    decreases ts.len(),
{
    if ts.len() == 0 {
        0
    } else if ts.first() is LeftPar {
        token_balance(ts.drop_first()) + 1
    } else if ts.first() is RightPar {
        token_balance(ts.drop_first()) - 1
    } else {
        token_balance(ts.drop_first())
    }
}

/// After an unwinding, no operator of the level or more is on top.
pub proof fn lemma_unwind_stops(st: Stacks, level: int)
    ensures
        st.unwind(level) matches Ok(end) ==> !end.reducible(level),
    decreases st.operators.len(),
{
    if st.reducible(level) {
        match st.reduce() {
            Ok(next) => lemma_unwind_stops(next, level),
            Err(_) => {},
        }
    }
}

/// The balance of one token.
pub proof fn lemma_balance_one(t: Token)
    ensures
        token_balance(seq![t]) == if t is LeftPar {
            1int
        } else if t is RightPar {
            -1int
        } else {
            0int
        },
{
    assert(token_balance(seq![t].drop_first()) == 0);
}

/// Unwinding takes no opening parenthesis off the operator stack.
pub proof fn lemma_unwind_keeps_balance(st: Stacks, level: int)
    ensures
        st.unwind(level) matches Ok(end) ==> token_balance(end.operators) == token_balance(
            st.operators,
        ),
    decreases st.operators.len(),
{
    if st.reducible(level) {
        match st.reduce() {
            Ok(next) => {
                lemma_unwind_keeps_balance(next, level);
                lemma_balance_push(next.operators, st.operators.last());
                lemma_balance_one(st.operators.last());
                assert(next.operators.push(st.operators.last()) =~= st.operators);
            },
            Err(_) => {},
        }
    }
}

/// The balance of a sequence with one token more at its end.
pub proof fn lemma_balance_push(ts: Seq<Token>, t: Token)
    ensures
        token_balance(ts.push(t)) == token_balance(ts) + token_balance(seq![t]),
    decreases ts.len(),
{
    if ts.len() == 0 {
        assert(ts.push(t) =~= seq![t]);
    } else {
        assert(ts.push(t).drop_first() =~= ts.drop_first().push(t));
        lemma_balance_push(ts.drop_first(), t);
    }
}

/// The opening parentheses that wait on the operator stack are those of
/// the tokens taken that no closing one has matched.
pub proof fn lemma_feed_all_balance(st: Stacks, ts: Seq<Token>)
    ensures
        st.feed_all(ts) matches Ok(end) ==> token_balance(end.operators) == token_balance(
            st.operators,
        ) + token_balance(ts),
    decreases ts.len(),
{
    if ts.len() > 0 {
        let t = ts.first();
        match st.feed(t) {
            Ok(next) => {
                lemma_feed_all_balance(next, ts.drop_first());
                lemma_balance_one(t);
                match t {
                    Token::Num(_) => {},
                    Token::LeftPar => {
                        lemma_balance_push(st.operators, t);
                    },
                    Token::RightPar => {
                        lemma_unwind_keeps_balance(st, 1);
                        lemma_unwind_stops(st, 1);
                        let unwound = st.unwind(1)->Ok_0;
                        lemma_balance_one(Token::LeftPar);
                        lemma_balance_push(next.operators, Token::LeftPar);
                        assert(next.operators.push(Token::LeftPar) =~= unwound.operators);
                    },
                    _ => {
                        lemma_unwind_keeps_balance(st, t.rank());
                        lemma_balance_push(st.unwind(t.rank())->Ok_0.operators, t);
                    },
                }
            },
            Err(_) => {},
        }
    }
}

/// Tokens whose parentheses do not balance never parse.
pub proof fn lemma_parse_needs_balance(ts: Seq<Token>)
    ensures
        token_balance(ts) != 0 ==> parse_spec(ts) is Err,
{
    let start = Stacks::empty();
    lemma_feed_all_balance(start, ts);
    match start.feed_all(ts) {
        Ok(end) => {
            lemma_unwind_keeps_balance(end, 1);
        },
        Err(_) => {},
    }
}

/// Whether only operators and opening parentheses wait in `operators`.
pub open spec fn well_stacked(operators: Seq<Token>) -> bool {
    forall|i: int|
        0 <= i < operators.len() ==> (#[trigger] operators[i]).is_operator()
            || operators[i] is LeftPar
}

/// Unwinding well-stacked operators never meets an unexpected token, and
/// leaves the operators well stacked.
pub proof fn lemma_unwind_well_stacked(st: Stacks, level: int)
    requires
        well_stacked(st.operators),
    ensures
        st.unwind(level) != Err::<Stacks, ParseError>(ParseError::UnexpectedToken),
        st.unwind(level) matches Ok(end) ==> well_stacked(end.operators),
    decreases st.operators.len(),
{
    if st.reducible(level) {
        match st.reduce() {
            Ok(next) => {
                lemma_unwind_well_stacked(next, level);
            },
            Err(_) => {},
        }
    }
}

/// Parsing from well-stacked operators never meets an unexpected token.
pub proof fn lemma_feed_all_well_stacked(st: Stacks, ts: Seq<Token>)
    requires
        well_stacked(st.operators),
    ensures
        st.feed_all(ts) != Err::<Stacks, ParseError>(ParseError::UnexpectedToken),
        st.feed_all(ts) matches Ok(end) ==> well_stacked(end.operators),
    decreases ts.len(),
{
    if ts.len() > 0 {
        let t = ts.first();
        match t {
            Token::Num(_) => {},
            Token::LeftPar => {},
            Token::RightPar => {
                lemma_unwind_well_stacked(st, 1);
            },
            _ => {
                lemma_unwind_well_stacked(st, t.rank());
            },
        }
        match st.feed(t) {
            Ok(next) => {
                lemma_feed_all_well_stacked(next, ts.drop_first());
            },
            Err(_) => {},
        }
    }
}

/// A parse fails for want of an operand, for a parenthesis without its
/// partner, or for the number of operands left; it never meets an
/// unexpected token.
pub proof fn lemma_parse_errors(ts: Seq<Token>)
    ensures
        parse_spec(ts) != Err::<Root, ParseError>(ParseError::UnexpectedToken),
{
    let start = Stacks::empty();
    lemma_feed_all_well_stacked(start, ts);
    match start.feed_all(ts) {
        Ok(end) => {
            lemma_unwind_well_stacked(end, 1);
        },
        Err(_) => {},
    }
}

/// Well-stacked operators hold no closing parenthesis, so their balance is
/// not negative.
pub proof fn lemma_well_stacked_balance(operators: Seq<Token>)
    requires
        well_stacked(operators),
    ensures
        token_balance(operators) >= 0,
    decreases operators.len(),
{
    if operators.len() > 0 {
        let rest = operators.drop_first();
        assert(operators[0].is_operator() || operators[0] is LeftPar);
        assert forall|i: int| 0 <= i < rest.len() implies (#[trigger] rest[i]).is_operator()
            || rest[i] is LeftPar by {
            assert(rest[i] == operators[i + 1]);
        }
        lemma_well_stacked_balance(rest);
    }
}

/// A closing parenthesis in front of its opening one never parses: tokens
/// of which the first `k` hold more closing than opening parentheses fail,
/// whatever follows.
pub proof fn lemma_parse_needs_nesting(ts: Seq<Token>, k: int)
    requires
        0 <= k <= ts.len(),
        token_balance(ts.take(k)) < 0,
    ensures
        parse_spec(ts) is Err,
{
    let start = Stacks::empty();
    assert(ts =~= ts.take(k) + ts.skip(k));
    lemma_feed_all_concat(start, ts.take(k), ts.skip(k));
    lemma_feed_all_balance(start, ts.take(k));
    lemma_feed_all_well_stacked(start, ts.take(k));
    match start.feed_all(ts.take(k)) {
        Ok(mid) => {
            lemma_well_stacked_balance(mid.operators);
        },
        Err(_) => {},
    }
}

} // verus!
