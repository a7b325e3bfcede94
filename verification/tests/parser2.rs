use testl::parser2::lexer::{lex, Token, TokenData};
use testl::parser2::parser::{parser, Expr};

// None of these cases is from the original test suite.

fn ident(s: &str) -> Token {
    Token::Identifier(TokenData { value: s.to_string() })
}

fn number(s: &str) -> Token {
    Token::NumberLiteral(TokenData { value: s.to_string() })
}

#[test]
fn function_language_keywords_win_ties_with_identifiers() {
    assert_eq!(
        lex("if iffy function functions while let return for else x").unwrap(),
        vec![
            Token::If,
            ident("iffy"),
            Token::Function,
            ident("functions"),
            Token::While,
            Token::Let,
            Token::Return,
            Token::For,
            Token::Else,
            ident("x"),
        ]
    );
}

#[test]
fn function_language_operators_take_the_longest_match() {
    assert_eq!(
        lex("=== <= < >= > = + - * / % ( ) { } [ ] . , ;").unwrap(),
        vec![
            Token::Equals,
            Token::Assign,
            Token::LessThanOrEquals,
            Token::LessThan,
            Token::GreaterThanOrEquals,
            Token::GreaterThan,
            Token::Assign,
            Token::Plus,
            Token::Minus,
            Token::Times,
            Token::Division,
            Token::Modulo,
            Token::LParenthesis,
            Token::RParenthesis,
            Token::LCurlyBrace,
            Token::RCurlyBrace,
            Token::LSquareBracket,
            Token::RSquareBracket,
            Token::Period,
            Token::Comma,
            Token::Semicolon,
        ]
    );
}

#[test]
fn letters_and_digits_split_into_separate_tokens() {
    assert_eq!(lex("abc123def\t\n\x0c42").unwrap(), vec![ident("abc"), number("123"), ident("def"), number("42")]);
}

#[test]
fn empty_and_blank_sources_have_no_tokens() {
    assert_eq!(lex("").unwrap(), vec![]);
    assert_eq!(lex(" \t\n ").unwrap(), vec![]);
}

#[test]
fn the_first_unmatched_byte_is_reported() {
    assert_eq!(lex("a b_c"), Err(3));
    assert_eq!(lex("x;\r\n"), Err(2));
    assert_eq!(lex("é"), Err(0));
    assert_eq!(lex("ok !"), Err(3));
}

fn name_of(e: &Expr) -> String {
    match e {
        Expr::Identifier(s) | Expr::Formal(s) => s.clone(),
        _ => panic!("not a name: {:?}", e),
    }
}

#[test]
fn parses_a_program_of_functions() {
    let tokens = lex("function main(a, b) { x; ; { y; } while (c) while (d) z; } function f() {}").unwrap();
    let program = parser(&tokens).expect("should parse");
    let functions = match program {
        Expr::Program(fs) => fs,
        other => panic!("not a program: {:?}", other),
    };
    assert_eq!(functions.len(), 2);
    match &functions[0] {
        Expr::Function((name, formals, body)) => {
            assert_eq!(name_of(name), "main");
            match &**formals {
                Expr::Formals(fs) => {
                    assert_eq!(fs.iter().map(name_of).collect::<Vec<_>>(), vec!["a", "b"]);
                }
                other => panic!("not formals: {:?}", other),
            }
            match &**body {
                Expr::FunctionBody(stmts) => {
                    assert_eq!(stmts.len(), 4);
                    assert_eq!(name_of(&stmts[0]), "x");
                    assert!(matches!(stmts[1], Expr::EmptyStatement));
                    match &stmts[2] {
                        Expr::Block(inner) => {
                            assert_eq!(inner.len(), 1);
                            assert_eq!(name_of(&inner[0]), "y");
                        }
                        other => panic!("not a block: {:?}", other),
                    }
                    match &stmts[3] {
                        Expr::While { condition, body } => {
                            assert_eq!(name_of(condition), "c");
                            match &**body {
                                Expr::While { condition, body } => {
                                    assert_eq!(name_of(condition), "d");
                                    assert_eq!(name_of(body), "z");
                                }
                                other => panic!("not a loop: {:?}", other),
                            }
                        }
                        other => panic!("not a loop: {:?}", other),
                    }
                }
                other => panic!("not a body: {:?}", other),
            }
        }
        other => panic!("not a function: {:?}", other),
    }
    match &functions[1] {
        Expr::Function((name, formals, body)) => {
            assert_eq!(name_of(name), "f");
            assert!(matches!(&**formals, Expr::Formals(fs) if fs.is_empty()));
            assert!(matches!(&**body, Expr::FunctionBody(b) if b.is_empty()));
        }
        other => panic!("not a function: {:?}", other),
    }
}

#[test]
fn an_empty_token_list_is_an_empty_program() {
    assert!(matches!(parser(&[]), Some(Expr::Program(fs)) if fs.is_empty()));
}

#[test]
fn every_token_must_belong_to_a_function() {
    let reject = |src: &str| parser(&lex(src).unwrap()).is_none();
    assert!(reject("function f() {} x"));
    assert!(reject("function f(a,) {}"));
    assert!(reject("function f(a b) {}"));
    assert!(reject("function f() { x }"));
    assert!(reject("function f() { while (x) }"));
    assert!(reject("function f() { while (1) x; }"));
    assert!(reject("function () {}"));
    assert!(!reject("function f(a) { while (x) ; }"));
}

#[test]
fn a_cloned_tree_prints_like_the_original() {
    let tokens = lex("function f(a) { while (a) { b; ; } }").unwrap();
    let program = parser(&tokens).unwrap();
    assert_eq!(format!("{:?}", program.clone()), format!("{:?}", program));
}
