use vstd::prelude::*;

verus! {

/// The text of an identifier or a literal.
#[derive(Debug, PartialEq, Default, Eq, Hash, Clone)]
pub struct TokenData {
    pub value: String,
}

/// The tokens that the expression language's parser reads.
#[derive(Debug, PartialEq, Eq, Hash, Clone)]
pub enum Token {
    While,
    Let,
    Function,
    Return,
    True,
    False,
    Plus,
    Minus,
    Times,
    Divided,
    LParenthesis,
    RParenthesis,
    LCurlyBrace,
    RCurlyBrace,
    Comma,
    Equals,
    NotEquals,
    LessThanOrEquals,
    GreaterThanOrEquals,
    LessThan,
    GreaterThan,
    Assign,
    Semicolon,
    Identifier(TokenData),
    TypeIdentifier(TokenData),
    NumberLiteral(TokenData),
    StringLiteral(TokenData),
}

} // verus!
