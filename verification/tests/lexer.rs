use testl::parser::lexer::{run, tokenize, Token};
use testl::span::SourceIDSpan;

fn kinds(src: &str) -> Vec<Token> {
    tokenize(src, 5).expect("should lex").into_iter().map(|(t, _)| t).collect()
}

// None of these cases is from the original test suite.

#[test]
fn keywords_win_ties_and_longer_words_are_identifiers() {
    assert_eq!(
        kinds("if iffy Int x_1' 42 ->"),
        vec![
            Token::If,
            Token::Identifier("iffy".to_string()),
            Token::TypeIdentifier("Int".to_string()),
            Token::Identifier("x_1'".to_string()),
            Token::NumberLiteral("42".to_string()),
            Token::ArrowSingle,
        ]
    );
}

#[test]
fn operators_take_the_longest_match() {
    assert_eq!(
        kinds("<= < == = != ! += ++ && & ||"),
        vec![
            Token::LessThanOrEquals,
            Token::LessThan,
            Token::DoubleEquals,
            Token::SingleEquals,
            Token::NotEquals,
            Token::Bang,
            Token::PlusEquals,
            Token::Plus,
            Token::Plus,
            Token::DoubleAmpersand,
            Token::Ampersand,
            Token::DoublePipe,
        ]
    );
}

#[test]
fn comments_and_whitespace_are_skipped_and_spans_are_bytes() {
    let tokens = run("a // note\n /* x */ \"s t\" 'u'", 2).unwrap();
    assert_eq!(
        tokens,
        vec![
            (Token::Identifier("a".to_string()), SourceIDSpan { context: 2, start: 0, end: 1 }),
            (Token::StringLiteral("s t".to_string()), SourceIDSpan { context: 2, start: 19, end: 24 }),
            (Token::StringLiteral("u".to_string()), SourceIDSpan { context: 2, start: 25, end: 28 }),
        ]
    );
}

#[test]
fn a_block_comment_reaches_to_the_last_close() {
    assert_eq!(kinds("/* a */ b /* c */ d"), vec![Token::Identifier("d".to_string())]);
    assert_eq!(kinds("/* a */ b"), vec![Token::Identifier("b".to_string())]);
}

#[test]
fn unknown_input_does_not_lex() {
    assert_eq!(tokenize("a # b", 1), None);
    assert_eq!(tokenize("\"unclosed", 1), None);
    assert_eq!(tokenize("\"\"", 1), None);
}
