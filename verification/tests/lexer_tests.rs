use feynman::error::CalcError;
use feynman::interpreter::lexer::{tokenize, Token};

fn sym(name: &str) -> Token {
    Token::Sym(name.to_string())
}

#[test]
fn empty_text_has_no_tokens() {
    assert_eq!(tokenize(String::new()), Ok(vec![]));
    assert_eq!(tokenize("   ".to_string()), Ok(vec![]));
}

#[test]
fn single_characters_map_to_their_tokens() {
    assert_eq!(
        tokenize("+-*/=[];".to_string()),
        Ok(vec![
            Token::Add,
            Token::Sub,
            Token::Mul,
            Token::Div,
            Token::Asgn,
            Token::OpenBlock,
            Token::CloseBlock,
            Token::Break,
        ])
    );
}

#[test]
fn binary_expression_is_three_tokens() {
    assert_eq!(
        tokenize("1 + 2".to_string()),
        Ok(vec![Token::Int(1), Token::Add, Token::Int(2)])
    );
}

#[test]
fn spaces_are_not_needed_between_tokens() {
    assert_eq!(
        tokenize("11-6*2".to_string()),
        Ok(vec![Token::Int(11), Token::Sub, Token::Int(6), Token::Mul, Token::Int(2)])
    );
}

#[test]
fn delimiter_after_a_name_is_a_token_of_its_own() {
    assert_eq!(
        tokenize("x=5".to_string()),
        Ok(vec![sym("x"), Token::Asgn, Token::Int(5)])
    );
    assert_eq!(
        tokenize("[total]".to_string()),
        Ok(vec![Token::OpenBlock, sym("total"), Token::CloseBlock])
    );
    assert_eq!(tokenize("a;b".to_string()), Ok(vec![sym("a"), Token::Break, sym("b")]));
}

#[test]
fn let_is_the_declaration_keyword() {
    assert_eq!(tokenize("let x".to_string()), Ok(vec![Token::DecVar, sym("x")]));
    assert_eq!(tokenize("let".to_string()), Ok(vec![Token::DecVar]));
}

#[test]
fn longer_names_that_start_with_let_are_names() {
    assert_eq!(tokenize("letter".to_string()), Ok(vec![sym("letter")]));
    assert_eq!(tokenize("le".to_string()), Ok(vec![sym("le")]));
    assert_eq!(tokenize("Let".to_string()), Ok(vec![sym("Let")]));
}

#[test]
fn names_may_hold_digits_and_points() {
    assert_eq!(tokenize("x1".to_string()), Ok(vec![sym("x1")]));
    assert_eq!(tokenize(".5".to_string()), Ok(vec![sym(".5")]));
    assert_eq!(tokenize("a.b".to_string()), Ok(vec![sym("a.b")]));
}

#[test]
fn names_may_hold_any_other_character() {
    assert_eq!(tokenize("π".to_string()), Ok(vec![sym("π")]));
    assert_eq!(
        tokenize("größe + 1".to_string()),
        Ok(vec![sym("größe"), Token::Add, Token::Int(1)])
    );
    assert_eq!(tokenize("(a)".to_string()), Ok(vec![sym("(a)")]));
}

#[test]
fn number_runs_up_to_the_first_other_character() {
    assert_eq!(tokenize("12x".to_string()), Ok(vec![Token::Int(12), sym("x")]));
    assert_eq!(tokenize("007".to_string()), Ok(vec![Token::Int(7)]));
}

#[test]
fn digits_after_the_point_are_dropped() {
    assert_eq!(tokenize("1.5".to_string()), Ok(vec![Token::Int(1)]));
    assert_eq!(tokenize("7.9".to_string()), Ok(vec![Token::Int(7)]));
    assert_eq!(tokenize("3.".to_string()), Ok(vec![Token::Int(3)]));
    assert_eq!(tokenize("0.999999999999".to_string()), Ok(vec![Token::Int(0)]));
}

#[test]
fn second_decimal_point_is_a_lex_error() {
    assert_eq!(tokenize("1.2.3".to_string()), Err(CalcError::LexError));
    assert_eq!(tokenize("1..".to_string()), Err(CalcError::LexError));
    assert_eq!(tokenize("x + 4.5.".to_string()), Err(CalcError::LexError));
}

#[test]
fn largest_literal_is_i32_max() {
    assert_eq!(tokenize("2147483647".to_string()), Ok(vec![Token::Int(2147483647)]));
    assert_eq!(tokenize("2147483647.99".to_string()), Ok(vec![Token::Int(2147483647)]));
    assert_eq!(tokenize("0000000002147483647".to_string()), Ok(vec![Token::Int(2147483647)]));
}

#[test]
fn literal_above_i32_max_is_a_lex_error() {
    assert_eq!(tokenize("2147483648".to_string()), Err(CalcError::LexError));
    assert_eq!(tokenize("99999999999999999999999999".to_string()), Err(CalcError::LexError));
    assert_eq!(tokenize("1 + 4294967296".to_string()), Err(CalcError::LexError));
}

#[test]
fn minus_is_always_an_operator() {
    assert_eq!(tokenize("-5".to_string()), Ok(vec![Token::Sub, Token::Int(5)]));
}

#[test]
fn clone_keeps_the_token() {
    let tokens = vec![
        Token::Add,
        Token::Sub,
        Token::Mul,
        Token::Div,
        Token::Asgn,
        Token::OpenBlock,
        Token::CloseBlock,
        Token::DecVar,
        Token::Break,
        Token::Int(42),
        sym("answer"),
    ];
    for token in &tokens {
        assert_eq!(&token.clone(), token);
    }
}
