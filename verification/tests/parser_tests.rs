use calc_extra::lexer::{lexer, Token};
use calc_extra::parser::{
    parse, token_2_node, Add, Div, EvalError, Expr, Minus, Multi, Node, Num, Par, ParseError, Root,
};

fn num(n: i32) -> Box<Node> {
    Box::new(Node::Num(Num(n)))
}

fn value_of(text: &str) -> Result<i32, EvalError> {
    parse(lexer(text).unwrap()).unwrap().eval()
}

#[test]
fn test_impl_macro_for_add() {
    let e = Add::new(num(1), Box::new(Node::Add(Add::new(num(2), num(0)))));
    assert_eq!(Ok(1 + 2), e.eval());
}

#[test]
fn test_impl_macro_for_minus() {
    let e = Minus::new(num(1), num(2));
    assert_eq!(Ok(1 - 2), e.eval());
}

#[test]
fn test_impl_macro_for_multi() {
    let e = Multi::new(num(1), num(2));
    assert_eq!(Ok(1 * 2), e.eval());
}

#[test]
fn test_impl_macro_for_div() {
    let e = Div::new(num(1), num(2));
    assert_eq!(Ok(1 / 2), e.eval());
}

#[test]
fn test_parse() {
    let ast = parse(lexer("1 + 1 + 2 - 3 * 2 + (2 * 3)").unwrap()).unwrap();
    assert_eq!(Ok(1 + 1 + 2 - 3 * 2 + (2 * 3)), ast.eval());
    let ast = parse(lexer("(2) + ((3 * 2) * 3 - 2)").unwrap()).unwrap();
    assert_eq!(Ok((2) + ((3 * 2) * 3 - 2)), ast.eval());
    let ast = parse(lexer("-1 + 1").unwrap()).unwrap();
    assert_eq!(Ok(-1 + 1), ast.eval());
    let ast = parse(lexer("-1 + 1 + (-2) * (-3 + (-8))").unwrap()).unwrap();
    assert_eq!(Ok(-1 + 1 + (-2) * (-3 + (-8))), ast.eval());
}

#[test]
fn a_number_evaluates_to_itself() {
    assert_eq!(value_of("0"), Ok(0));
    assert_eq!(value_of("42"), Ok(42));
    assert_eq!(value_of("-42"), Ok(-42));
    assert_eq!(value_of("2147483647"), Ok(i32::MAX));
    assert_eq!(value_of("-2147483648"), Ok(i32::MIN));
}

#[test]
fn precedence_and_association() {
    assert_eq!(value_of("1+1+2-3*2+(2*3)"), Ok(4));
    assert_eq!(value_of("2+3*4"), Ok(14));
    assert_eq!(value_of("2*3+4"), Ok(10));
    assert_eq!(value_of("10-4-3"), Ok(3));
    assert_eq!(value_of("100/10/5"), Ok(2));
    assert_eq!(value_of("2*(3+4)"), Ok(14));
    assert_eq!(value_of("8/4*2"), Ok(4));
    assert_eq!(value_of("1-2*3-4"), Ok(-9));
}

#[test]
fn tree_of_a_sum_of_products() {
    let tree = parse(lexer("1+2*3").unwrap()).unwrap();
    let expected = Root {
        child: Some(Box::new(Node::Add(Add::new(
            num(1),
            Box::new(Node::Multi(Multi::new(num(2), num(3)))),
        )))),
    };
    assert_eq!(tree, expected);
}

#[test]
fn tree_is_left_associative() {
    let tree = parse(lexer("1-2-3").unwrap()).unwrap();
    let expected = Root {
        child: Some(Box::new(Node::Minus(Minus::new(
            Box::new(Node::Minus(Minus::new(num(1), num(2)))),
            num(3),
        )))),
    };
    assert_eq!(tree, expected);
}

#[test]
fn tree_keeps_groups() {
    let tree = parse(lexer("(1)").unwrap()).unwrap();
    let expected = Root {
        child: Some(Box::new(Node::Par(Par::new(num(1))))),
    };
    assert_eq!(tree, expected);
}

#[test]
fn nested_parentheses_keep_the_value() {
    assert_eq!(value_of("(((1+2)))"), Ok(3));
    assert_eq!(value_of("1+2"), Ok(3));
    assert_eq!(value_of("((((((7))))))"), Ok(7));
}

#[test]
fn unary_minus_composes() {
    assert_eq!(value_of("-1+1"), Ok(0));
    assert_eq!(value_of("-1+1+(-2)*(-3+(-8))"), Ok(22));
    assert_eq!(value_of("--5"), Ok(5));
    assert_eq!(value_of("3--5"), Ok(8));
    assert_eq!(value_of("3*-5"), Ok(-15));
}

#[test]
fn minus_before_a_group_negates_its_value() {
    assert_eq!(value_of("-(2+3)"), Ok(-5));
    assert_eq!(value_of("2*-(3+4)"), Ok(-14));
    assert_eq!(value_of("2/-(3+4)"), Ok(0));
    assert_eq!(value_of("10--(3)"), Ok(13));
    assert_eq!(value_of("-(-(4))"), Ok(4));
    assert_eq!(value_of("--(4)"), Ok(4));
    assert_eq!(value_of("-(1)-(2)"), Ok(-3));
}

#[test]
fn division_truncates_toward_zero() {
    assert_eq!(value_of("7/2"), Ok(3));
    assert_eq!(value_of("-7/2"), Ok(-3));
    assert_eq!(value_of("7/-2"), Ok(-3));
    assert_eq!(value_of("-7/-2"), Ok(3));
    assert_eq!(value_of("0/-5"), Ok(0));
}

#[test]
fn division_by_zero_is_an_error() {
    assert_eq!(value_of("1/0"), Err(EvalError::DivisionByZero));
    assert_eq!(value_of("1/(2-2)"), Err(EvalError::DivisionByZero));
    assert_eq!(value_of("0/0"), Err(EvalError::DivisionByZero));
    assert_eq!(value_of("5+3*(1/0)"), Err(EvalError::DivisionByZero));
}

#[test]
fn overflow_is_an_error() {
    assert_eq!(value_of("2147483647+1"), Err(EvalError::Overflow));
    assert_eq!(value_of("-2147483648-1"), Err(EvalError::Overflow));
    assert_eq!(value_of("65536*65536"), Err(EvalError::Overflow));
    assert_eq!(value_of("-2147483648/-1"), Err(EvalError::Overflow));
    assert_eq!(value_of("-(-2147483648)"), Err(EvalError::Overflow));
    assert_eq!(value_of("2147483647+0"), Ok(i32::MAX));
}

#[test]
fn first_error_from_the_left_wins() {
    assert_eq!(value_of("(1/0)+(2147483647+1)"), Err(EvalError::DivisionByZero));
    assert_eq!(value_of("(2147483647+1)+(1/0)"), Err(EvalError::Overflow));
}

#[test]
fn empty_root_has_no_value() {
    assert_eq!(Root::new().eval(), Err(EvalError::EmptyRoot));
    assert_eq!(Root::new(), Root { child: None });
}

#[test]
fn defaults_hold_zeros() {
    assert_eq!(Par::default(), Par::new(num(0)));
    assert_eq!(Par::default().eval(), Ok(0));
    assert_eq!(Add::default(), Add::new(num(0), num(0)));
    assert_eq!(Minus::default(), Minus::new(num(0), num(0)));
    assert_eq!(Multi::default(), Multi::new(num(0), num(0)));
    assert_eq!(Div::default(), Div::new(num(0), num(0)));
    assert_eq!(Div::default().eval(), Err(EvalError::DivisionByZero));
}

#[test]
fn group_evaluates_to_its_inner_value() {
    let inner = Node::Minus(Minus::new(num(9), num(4)));
    assert_eq!(Par::new(Box::new(inner)).eval(), Ok(5));
}

#[test]
fn unmatched_closing_parenthesis() {
    assert_eq!(
        parse(vec![Token::Num(1), Token::RightPar]),
        Err(ParseError::UnmatchedParen)
    );
    assert_eq!(
        parse(lexer(")(").unwrap()),
        Err(ParseError::UnmatchedParen)
    );
}

#[test]
fn unclosed_opening_parenthesis() {
    assert_eq!(
        parse(vec![Token::LeftPar, Token::Num(1)]),
        Err(ParseError::MismatchedParen)
    );
}

#[test]
fn malformed_expressions() {
    assert_eq!(parse(vec![]), Err(ParseError::MalformedExpression));
    assert_eq!(
        parse(vec![Token::Num(1), Token::Num(2)]),
        Err(ParseError::MalformedExpression)
    );
    assert_eq!(
        parse(lexer("1 2").unwrap()),
        Err(ParseError::MalformedExpression)
    );
}

#[test]
fn operators_without_operands() {
    assert_eq!(parse(vec![Token::Add]), Err(ParseError::StackUnderflow));
    assert_eq!(
        parse(vec![Token::Num(1), Token::Add]),
        Err(ParseError::StackUnderflow)
    );
    assert_eq!(
        parse(vec![Token::LeftPar, Token::RightPar]),
        Err(ParseError::StackUnderflow)
    );
    assert_eq!(parse(lexer("1+*2").unwrap()), Err(ParseError::StackUnderflow));
}

#[test]
fn node_of_an_operator_takes_two_operands() {
    let mut stack = vec![Node::Num(Num(1)), Node::Num(Num(2)), Node::Num(Num(3))];
    let node = token_2_node(Token::Minus, &mut stack);
    assert_eq!(node, Ok(Node::Minus(Minus::new(num(2), num(3)))));
    assert_eq!(stack, vec![Node::Num(Num(1))]);
}

#[test]
fn node_of_a_parenthesis_wraps_one_operand() {
    let mut stack = vec![Node::Num(Num(1)), Node::Num(Num(2))];
    let node = token_2_node(Token::LeftPar, &mut stack);
    assert_eq!(node, Ok(Node::Par(Par::new(num(2)))));
    assert_eq!(stack, vec![Node::Num(Num(1))]);
}

#[test]
fn node_of_each_operator() {
    let mut stack = vec![Node::Num(Num(6)), Node::Num(Num(3))];
    assert_eq!(
        token_2_node(Token::Add, &mut stack),
        Ok(Node::Add(Add::new(num(6), num(3))))
    );
    let mut stack = vec![Node::Num(Num(6)), Node::Num(Num(3))];
    assert_eq!(
        token_2_node(Token::Multi, &mut stack),
        Ok(Node::Multi(Multi::new(num(6), num(3))))
    );
    let mut stack = vec![Node::Num(Num(6)), Node::Num(Num(3))];
    assert_eq!(
        token_2_node(Token::Div, &mut stack),
        Ok(Node::Div(Div::new(num(6), num(3))))
    );
}

#[test]
fn node_of_a_token_that_is_never_stacked() {
    let mut stack = vec![Node::Num(Num(1)), Node::Num(Num(2))];
    assert_eq!(
        token_2_node(Token::Num(5), &mut stack),
        Err(ParseError::UnexpectedToken)
    );
    assert_eq!(
        token_2_node(Token::RightPar, &mut stack),
        Err(ParseError::UnexpectedToken)
    );
    assert_eq!(stack.len(), 2);
}

#[test]
fn node_without_enough_operands_leaves_the_stack() {
    let mut stack = vec![Node::Num(Num(1))];
    assert_eq!(
        token_2_node(Token::Add, &mut stack),
        Err(ParseError::StackUnderflow)
    );
    assert_eq!(stack, vec![Node::Num(Num(1))]);
    let mut stack: Vec<Node> = vec![];
    assert_eq!(
        token_2_node(Token::LeftPar, &mut stack),
        Err(ParseError::StackUnderflow)
    );
}

#[test]
fn notation_of_each_node() {
    assert_eq!(Num(7).etype(), "{Num: 7}");
    assert_eq!(Num(-7).etype(), "{Num: -7}");
    assert_eq!(Add::new(num(1), num(2)).etype(), "{Add: {Num: 1} {Num: 2}}");
    assert_eq!(Minus::new(num(1), num(2)).etype(), "{Minus: {Num: 1} {Num: 2}}");
    assert_eq!(Multi::new(num(1), num(2)).etype(), "{Multi: {Num: 1} {Num: 2}}");
    assert_eq!(Div::new(num(1), num(2)).etype(), "{Div: {Num: 1} {Num: 2}}");
    assert_eq!(Par::new(num(1)).etype(), "({Num: 1})");
    assert_eq!(Node::Par(Par::new(num(1))).etype(), "({Num: 1})");
}

#[test]
fn notation_of_a_parsed_tree() {
    let root = parse(lexer("1+2*(3-4)").unwrap()).unwrap();
    assert_eq!(
        root.etype(),
        "{Root: {Add: {Num: 1} {Multi: {Num: 2} ({Minus: {Num: 3} {Num: 4}})}}}"
    );
    let root = parse(lexer("-(5)").unwrap()).unwrap();
    assert_eq!(root.etype(), "{Root: ({Minus: {Num: 0} ({Num: 5})})}");
}

#[test]
fn notation_of_an_empty_root() {
    assert_eq!(Root::new().etype(), "{{Root: None}}");
}
