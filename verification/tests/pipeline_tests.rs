use calc_extra::pipeline::{evaluate, CalcError};
use calc_extra::lexer::LexError;
use calc_extra::parser::{Add, EvalError, Expr, Multi, Node, Num, Par, ParseError};

#[test]
fn every_number_evaluates_to_itself() {
    for n in [
        0,
        1,
        -1,
        9,
        10,
        -10,
        12345,
        -98765,
        i32::MAX,
        i32::MIN,
        i32::MAX - 1,
        i32::MIN + 1,
    ] {
        assert_eq!(evaluate(&format!("{}", n)), Ok(n));
    }
}

#[test]
fn value_of_a_sum_of_products() {
    assert_eq!(evaluate("1+1+2-3*2+(2*3)"), Ok(4));
    assert_eq!(evaluate("(2)+((3*2)*3-2)"), Ok(18));
    assert_eq!(evaluate("7-2*3/4"), Ok(6));
}

#[test]
fn parentheses_keep_the_value() {
    assert_eq!(evaluate("(((1+2)))"), Ok(3));
    assert_eq!(evaluate("1+2"), evaluate("(1+2)"));
    assert_eq!(evaluate("(1+2)"), evaluate("((1+2))"));
    assert_eq!(evaluate("(1/0)"), evaluate("1/0"));
}

#[test]
fn unary_minus_in_the_pipeline() {
    assert_eq!(evaluate("-1+1"), Ok(0));
    assert_eq!(evaluate("-1+1+(-2)*(-3+(-8))"), Ok(22));
    assert_eq!(evaluate("-(2+3)*2"), Ok(-10));
}

#[test]
fn blanks_change_nothing() {
    assert_eq!(evaluate("1 + 2"), evaluate("1+2"));
    assert_eq!(evaluate("1 + 2"), Ok(3));
    assert_eq!(evaluate(" ( 1 + 2 ) * 3 "), evaluate("(1+2)*3"));
    assert_eq!(evaluate("1 / 0"), evaluate("1/0"));
    assert_eq!(evaluate("1 + a"), evaluate("1+a"));
    assert_eq!(evaluate("( 1"), evaluate("(1"));
}

#[test]
fn errors_of_the_tokenizer() {
    assert_eq!(evaluate("1+a"), Err(CalcError::Lex(LexError::UnknownChar('a'))));
    assert_eq!(
        evaluate("1+2+(((()+3"),
        Err(CalcError::Lex(LexError::UnbalancedParen))
    );
    assert_eq!(
        evaluate("99999999999"),
        Err(CalcError::Lex(LexError::InvalidNumber))
    );
}

#[test]
fn unknown_character_fails_whatever_came_before() {
    assert_eq!(evaluate("1+2"), Ok(3));
    assert_eq!(evaluate("1+a"), Err(CalcError::Lex(LexError::UnknownChar('a'))));
    assert_eq!(evaluate("1+2"), Ok(3));
    assert_eq!(evaluate("1+a"), Err(CalcError::Lex(LexError::UnknownChar('a'))));
}

#[test]
fn errors_of_the_parser() {
    assert_eq!(evaluate(""), Err(CalcError::Parse(ParseError::MalformedExpression)));
    assert_eq!(evaluate("1 2"), Err(CalcError::Parse(ParseError::MalformedExpression)));
    assert_eq!(evaluate("1+"), Err(CalcError::Parse(ParseError::StackUnderflow)));
    assert_eq!(evaluate(")1("), Err(CalcError::Parse(ParseError::UnmatchedParen)));
    assert_eq!(evaluate(")("), Err(CalcError::Parse(ParseError::UnmatchedParen)));
}

#[test]
fn errors_of_the_evaluation() {
    assert_eq!(evaluate("1/0"), Err(CalcError::Eval(EvalError::DivisionByZero)));
    assert_eq!(evaluate("2147483647+1"), Err(CalcError::Eval(EvalError::Overflow)));
}

#[test]
fn minus_before_a_number_negates_it() {
    assert_eq!(evaluate("-5"), Ok(-5));
    assert_eq!(evaluate("--5"), Ok(5));
    assert_eq!(evaluate("-0"), Ok(0));
    assert_eq!(evaluate("-2147483647"), Ok(-2147483647));
    assert_eq!(evaluate("--2147483647"), Ok(2147483647));
    assert_eq!(
        evaluate("--2147483648"),
        Err(CalcError::Lex(LexError::InvalidNumber))
    );
}

#[test]
fn minus_before_a_group_is_zero_minus_the_group() {
    assert_eq!(evaluate("-(7)"), Ok(-7));
    assert_eq!(evaluate("-(1+2*3)"), Ok(-7));
    assert_eq!(evaluate("-(-7)"), Ok(7));
    assert_eq!(evaluate("-(1/0)"), Err(CalcError::Eval(EvalError::DivisionByZero)));
    assert_eq!(
        evaluate("-(-2147483648)"),
        Err(CalcError::Eval(EvalError::Overflow))
    );
}

#[test]
fn text_of_a_tree_evaluates_to_its_value() {
    let tree = Node::Multi(Multi::new(
        Box::new(Node::Par(Par::new(Box::new(Node::Add(Add::new(
            Box::new(Node::Num(Num(1))),
            Box::new(Node::Num(Num(-2))),
        )))))),
        Box::new(Node::Num(Num(3))),
    ));
    assert_eq!(evaluate("(1+-2)*3"), Ok(-3));
    assert_eq!(tree.eval(), Ok(-3));
}
