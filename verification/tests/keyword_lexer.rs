use testl::lexer::{lex, Token, TokenData};

// None of these cases is from the original test suite.

fn ident(s: &str) -> Token {
    Token::Identifier(TokenData { value: s.to_string() })
}

#[test]
fn lexes_the_sample_program() {
    assert_eq!(
        lex("return asdj;  \n\nasok = let x+231*2").unwrap(),
        vec![
            Token::Return,
            ident("asdj"),
            Token::Semicolon,
            ident("asok"),
            Token::Equals,
            Token::Let,
            ident("x"),
            Token::Plus,
            Token::NumberLiteral(TokenData { value: "231".to_string() }),
            Token::Times,
            Token::NumberLiteral(TokenData { value: "2".to_string() }),
        ]
    );
}

#[test]
fn every_operator_is_a_single_character() {
    assert_eq!(
        lex("<=>==").unwrap(),
        vec![Token::LessThan, Token::Equals, Token::GreaterThan, Token::Equals, Token::Equals]
    );
}

#[test]
fn unknown_characters_are_reported_by_offset() {
    assert_eq!(lex("if x != y"), Err(5));
    assert_eq!(lex("whiles"), Ok(vec![ident("whiles")]));
}
