use calc_extra::lexer::{lexer, str_2_num_token, LexError, Token};

fn chars(s: &str) -> Vec<char> {
    s.chars().collect()
}

#[test]
fn test_lexer() {
    println!("{:#?}", lexer("123 + * ()"));
    assert_eq!(
        lexer("123 + * ()"),
        Ok(vec![
            Token::Num(123),
            Token::Add,
            Token::Multi,
            Token::LeftPar,
            Token::RightPar
        ])
    );
}

#[test]
#[should_panic]
fn test_lexer_parenthesis_panic() {
    lexer("1 + 2 + (((() + 3").unwrap();
}

#[test]
fn unbalanced_parentheses_are_an_error() {
    assert_eq!(lexer("1 + 2 + (((() + 3"), Err(LexError::UnbalancedParen));
    assert_eq!(lexer("1+2+(((()+3"), Err(LexError::UnbalancedParen));
    assert_eq!(lexer("(1"), Err(LexError::UnbalancedParen));
    assert_eq!(lexer("1)"), Err(LexError::UnbalancedParen));
}

#[test]
fn balance_is_a_count() {
    assert_eq!(lexer(")("), Ok(vec![Token::RightPar, Token::LeftPar]));
}

#[test]
fn unknown_character_is_an_error() {
    assert_eq!(lexer("1+a"), Err(LexError::UnknownChar('a')));
    assert_eq!(lexer("a"), Err(LexError::UnknownChar('a')));
    assert_eq!(lexer("1 + 2 ? 3"), Err(LexError::UnknownChar('?')));
    assert_eq!(lexer("1.5"), Err(LexError::UnknownChar('.')));
}

#[test]
fn first_error_in_the_text_wins() {
    assert_eq!(lexer("99999999999a"), Err(LexError::InvalidNumber));
    assert_eq!(lexer("(a"), Err(LexError::UnknownChar('a')));
    assert_eq!(lexer("a 99999999999"), Err(LexError::UnknownChar('a')));
}

#[test]
fn empty_text_has_no_tokens() {
    assert_eq!(lexer(""), Ok(vec![]));
    assert_eq!(lexer("  \t "), Ok(vec![]));
}

#[test]
fn every_operator_has_its_token() {
    assert_eq!(
        lexer("1+2-3*4/5"),
        Ok(vec![
            Token::Num(1),
            Token::Add,
            Token::Num(2),
            Token::Minus,
            Token::Num(3),
            Token::Multi,
            Token::Num(4),
            Token::Div,
            Token::Num(5)
        ])
    );
}

#[test]
fn whitespace_between_tokens_changes_nothing() {
    assert_eq!(lexer("1 + 2"), lexer("1+2"));
    assert_eq!(lexer(" 1\t+\n2\r"), lexer("1+2"));
    assert_eq!(lexer("1 - 2"), lexer("1-2"));
    assert_eq!(lexer("( 1 + 2 ) * - 3"), lexer("(1+2)*-3"));
}

#[test]
fn whitespace_ends_a_number() {
    assert_eq!(lexer("1 2"), Ok(vec![Token::Num(1), Token::Num(2)]));
    assert_eq!(lexer("12"), Ok(vec![Token::Num(12)]));
}

#[test]
fn minus_after_a_value_is_binary() {
    assert_eq!(
        lexer("1-2"),
        Ok(vec![Token::Num(1), Token::Minus, Token::Num(2)])
    );
    assert_eq!(
        lexer("(1)-2"),
        Ok(vec![
            Token::LeftPar,
            Token::Num(1),
            Token::RightPar,
            Token::Minus,
            Token::Num(2)
        ])
    );
}

#[test]
fn minus_elsewhere_is_a_sign() {
    assert_eq!(lexer("-1"), Ok(vec![Token::Num(-1)]));
    assert_eq!(lexer("--1"), Ok(vec![Token::Num(1)]));
    assert_eq!(lexer("---1"), Ok(vec![Token::Num(-1)]));
    assert_eq!(
        lexer("1--2"),
        Ok(vec![Token::Num(1), Token::Minus, Token::Num(-2)])
    );
    assert_eq!(
        lexer("2*-3"),
        Ok(vec![Token::Num(2), Token::Multi, Token::Num(-3)])
    );
    assert_eq!(
        lexer("(-3)"),
        Ok(vec![Token::LeftPar, Token::Num(-3), Token::RightPar])
    );
}

#[test]
fn sign_waits_for_the_next_number() {
    assert_eq!(lexer("-+3"), Ok(vec![Token::Add, Token::Num(-3)]));
    assert_eq!(lexer("- 3"), Ok(vec![Token::Num(-3)]));
}

#[test]
fn minus_before_a_group_negates_the_group() {
    assert_eq!(
        lexer("-(2+3)"),
        Ok(vec![
            Token::LeftPar,
            Token::Num(0),
            Token::Minus,
            Token::LeftPar,
            Token::Num(2),
            Token::Add,
            Token::Num(3),
            Token::RightPar,
            Token::RightPar
        ])
    );
    assert_eq!(
        lexer("--(2)"),
        Ok(vec![Token::LeftPar, Token::Num(2), Token::RightPar])
    );
}

#[test]
fn number_limits() {
    assert_eq!(lexer("2147483647"), Ok(vec![Token::Num(i32::MAX)]));
    assert_eq!(lexer("-2147483648"), Ok(vec![Token::Num(i32::MIN)]));
    assert_eq!(lexer("2147483648"), Err(LexError::InvalidNumber));
    assert_eq!(lexer("-2147483649"), Err(LexError::InvalidNumber));
    assert_eq!(lexer("00000000000000000000000012"), Ok(vec![Token::Num(12)]));
    assert_eq!(
        lexer("123456789012345678901234567890"),
        Err(LexError::InvalidNumber)
    );
}

#[test]
fn order_of_each_token() {
    assert_eq!(Token::Num(7).order(), 0);
    assert_eq!(Token::Add.order(), 1);
    assert_eq!(Token::Minus.order(), 1);
    assert_eq!(Token::Multi.order(), 2);
    assert_eq!(Token::Div.order(), 2);
    assert_eq!(Token::LeftPar.order(), -1);
    assert_eq!(Token::RightPar.order(), -1);
}

#[test]
fn number_token_of_digits() {
    assert_eq!(str_2_num_token(&chars("42"), 1), Ok(Token::Num(42)));
    assert_eq!(str_2_num_token(&chars("42"), -1), Ok(Token::Num(-42)));
    assert_eq!(str_2_num_token(&chars("007"), 1), Ok(Token::Num(7)));
    assert_eq!(str_2_num_token(&chars("21"), 3), Ok(Token::Num(63)));
    assert_eq!(str_2_num_token(&chars("99999999999"), 0), Ok(Token::Num(0)));
    assert_eq!(
        str_2_num_token(&chars("2147483648"), -1),
        Ok(Token::Num(i32::MIN))
    );
}

#[test]
fn number_token_rejects() {
    assert_eq!(str_2_num_token(&chars(""), 1), Err(LexError::InvalidNumber));
    assert_eq!(str_2_num_token(&chars("4x"), 1), Err(LexError::InvalidNumber));
    assert_eq!(str_2_num_token(&chars("-4"), 1), Err(LexError::InvalidNumber));
    assert_eq!(
        str_2_num_token(&chars("2147483648"), 1),
        Err(LexError::InvalidNumber)
    );
    assert_eq!(
        str_2_num_token(&chars("1073741824"), 2),
        Err(LexError::InvalidNumber)
    );
    assert_eq!(
        str_2_num_token(&chars("99999999999"), -1),
        Err(LexError::InvalidNumber)
    );
}
