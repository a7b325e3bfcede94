use vstd::prelude::*;

use crate::source::bytes_of;
use crate::span::{SourceID, SourceIDSpan};
use crate::text::substring;

verus! {

broadcast use vstd::utf8::encode_utf8_valid_utf8;

/// The tokens of the language.
#[derive(Debug, Clone, PartialEq, Eq, Hash)]
pub enum Token {
    /// `//` up to the end of the line; skipped, never produced.
    LineComment,
    /// `/*` up to the last `*/`; skipped, never produced.
    BlockComment,
    If,
    Else,
    Switch,
    Case,
    Default,
    Break,
    Return,
    Continue,
    While,
    For,
    ArrowSingle,
    Plus,
    Minus,
    Asterisk,
    Slash,
    Percent,
    Bang,
    LParenthesis,
    RParenthesis,
    LCurlyBrace,
    RCurlyBrace,
    LSquareBracket,
    RSquareBracket,
    Period,
    Comma,
    DoubleEquals,
    LessThanOrEquals,
    GreaterThanOrEquals,
    LessThan,
    GreaterThan,
    NotEquals,
    PlusEquals,
    MinusEquals,
    AsteriskEquals,
    SlashEquals,
    PercentEquals,
    DoubleAmpersand,
    DoublePipe,
    Ampersand,
    Pipe,
    Tilde,
    Caret,
    SingleEquals,
    Let,
    Const,
    True,
    False,
    Semicolon,
    Colon,
    /// `[a-z_][a-zA-Z0-9_']*`
    Identifier(String),
    /// `[A-Z][a-zA-Z0-9_']*`
    TypeIdentifier(String),
    /// `"[^"]+"` or `'[^']+'`; holds the text between the quotes.
    StringLiteral(String),
    /// `[0-9]+`
    NumberLiteral(String),
}

/// The number of tokens that are spelled by a fixed text.
pub const FIXED_TOKEN_COUNT: usize = 49;

/// The tokens that are spelled by a fixed text, in order of priority.
pub open spec fn fixed_tokens() -> Seq<Token> {
    seq![
        Token::If,
        Token::Else,
        Token::Switch,
        Token::Case,
        Token::Default,
        Token::Break,
        Token::Return,
        Token::Continue,
        Token::While,
        Token::For,
        Token::ArrowSingle,
        Token::Plus,
        Token::Minus,
        Token::Asterisk,
        Token::Slash,
        Token::Percent,
        Token::Bang,
        Token::LParenthesis,
        Token::RParenthesis,
        Token::LCurlyBrace,
        Token::RCurlyBrace,
        Token::LSquareBracket,
        Token::RSquareBracket,
        Token::Period,
        Token::Comma,
        Token::DoubleEquals,
        Token::LessThanOrEquals,
        Token::GreaterThanOrEquals,
        Token::LessThan,
        Token::GreaterThan,
        Token::NotEquals,
        Token::PlusEquals,
        Token::MinusEquals,
        Token::AsteriskEquals,
        Token::SlashEquals,
        Token::PercentEquals,
        Token::DoubleAmpersand,
        Token::DoublePipe,
        Token::Ampersand,
        Token::Pipe,
        Token::Tilde,
        Token::Caret,
        Token::SingleEquals,
        Token::Let,
        Token::Const,
        Token::True,
        Token::False,
        Token::Semicolon,
        Token::Colon
    ]
}

/// The text of a token that is spelled by a fixed text (empty for the others).
pub open spec fn fixed_text(token: Token) -> Seq<u8> {
    match token {
        Token::If => seq!['i' as u8, 'f' as u8],
        Token::Else => seq!['e' as u8, 'l' as u8, 's' as u8, 'e' as u8],
        Token::Switch => seq!['s' as u8, 'w' as u8, 'i' as u8, 't' as u8, 'c' as u8, 'h' as u8],
        Token::Case => seq!['c' as u8, 'a' as u8, 's' as u8, 'e' as u8],
        Token::Default => seq!['d' as u8, 'e' as u8, 'f' as u8, 'a' as u8, 'u' as u8, 'l' as u8, 't' as u8],
        Token::Break => seq!['b' as u8, 'r' as u8, 'e' as u8, 'a' as u8, 'k' as u8],
        Token::Return => seq!['r' as u8, 'e' as u8, 't' as u8, 'u' as u8, 'r' as u8, 'n' as u8],
        Token::Continue => seq!['c' as u8, 'o' as u8, 'n' as u8, 't' as u8, 'i' as u8, 'n' as u8, 'u' as u8, 'e' as u8],
        Token::While => seq!['w' as u8, 'h' as u8, 'i' as u8, 'l' as u8, 'e' as u8],
        Token::For => seq!['f' as u8, 'o' as u8, 'r' as u8],
        Token::ArrowSingle => seq!['-' as u8, '>' as u8],
        Token::Plus => seq!['+' as u8],
        Token::Minus => seq!['-' as u8],
        Token::Asterisk => seq!['*' as u8],
        Token::Slash => seq!['/' as u8],
        Token::Percent => seq!['%' as u8],
        Token::Bang => seq!['!' as u8],
        Token::LParenthesis => seq!['(' as u8],
        Token::RParenthesis => seq![')' as u8],
        Token::LCurlyBrace => seq!['{' as u8],
        Token::RCurlyBrace => seq!['}' as u8],
        Token::LSquareBracket => seq!['[' as u8],
        Token::RSquareBracket => seq![']' as u8],
        Token::Period => seq!['.' as u8],
        Token::Comma => seq![',' as u8],
        Token::DoubleEquals => seq!['=' as u8, '=' as u8],
        Token::LessThanOrEquals => seq!['<' as u8, '=' as u8],
        Token::GreaterThanOrEquals => seq!['>' as u8, '=' as u8],
        Token::LessThan => seq!['<' as u8],
        Token::GreaterThan => seq!['>' as u8],
        Token::NotEquals => seq!['!' as u8, '=' as u8],
        Token::PlusEquals => seq!['+' as u8, '=' as u8],
        Token::MinusEquals => seq!['-' as u8, '=' as u8],
        Token::AsteriskEquals => seq!['*' as u8, '=' as u8],
        Token::SlashEquals => seq!['/' as u8, '=' as u8],
        Token::PercentEquals => seq!['%' as u8, '=' as u8],
        Token::DoubleAmpersand => seq!['&' as u8, '&' as u8],
        Token::DoublePipe => seq!['|' as u8, '|' as u8],
        Token::Ampersand => seq!['&' as u8],
        Token::Pipe => seq!['|' as u8],
        Token::Tilde => seq!['~' as u8],
        Token::Caret => seq!['^' as u8],
        Token::SingleEquals => seq!['=' as u8],
        Token::Let => seq!['l' as u8, 'e' as u8, 't' as u8],
        Token::Const => seq!['c' as u8, 'o' as u8, 'n' as u8, 's' as u8, 't' as u8],
        Token::True => seq!['t' as u8, 'r' as u8, 'u' as u8, 'e' as u8],
        Token::False => seq!['f' as u8, 'a' as u8, 'l' as u8, 's' as u8, 'e' as u8],
        Token::Semicolon => seq![';' as u8],
        Token::Colon => seq![':' as u8],
        _ => seq![],
    }
}

fn fixed_token(index: usize) -> (token: Token)
    requires
        index < FIXED_TOKEN_COUNT,
    ensures
        token == fixed_tokens()[index as int],
{
    match index {
        0 => Token::If,
        1 => Token::Else,
        2 => Token::Switch,
        3 => Token::Case,
        4 => Token::Default,
        5 => Token::Break,
        6 => Token::Return,
        7 => Token::Continue,
        8 => Token::While,
        9 => Token::For,
        10 => Token::ArrowSingle,
        11 => Token::Plus,
        12 => Token::Minus,
        13 => Token::Asterisk,
        14 => Token::Slash,
        15 => Token::Percent,
        16 => Token::Bang,
        17 => Token::LParenthesis,
        18 => Token::RParenthesis,
        19 => Token::LCurlyBrace,
        20 => Token::RCurlyBrace,
        21 => Token::LSquareBracket,
        22 => Token::RSquareBracket,
        23 => Token::Period,
        24 => Token::Comma,
        25 => Token::DoubleEquals,
        26 => Token::LessThanOrEquals,
        27 => Token::GreaterThanOrEquals,
        28 => Token::LessThan,
        29 => Token::GreaterThan,
        30 => Token::NotEquals,
        31 => Token::PlusEquals,
        32 => Token::MinusEquals,
        33 => Token::AsteriskEquals,
        34 => Token::SlashEquals,
        35 => Token::PercentEquals,
        36 => Token::DoubleAmpersand,
        37 => Token::DoublePipe,
        38 => Token::Ampersand,
        39 => Token::Pipe,
        40 => Token::Tilde,
        41 => Token::Caret,
        42 => Token::SingleEquals,
        43 => Token::Let,
        44 => Token::Const,
        45 => Token::True,
        46 => Token::False,
        47 => Token::Semicolon,
        _ => Token::Colon,
    }
}

fn fixed_token_bytes(token: &Token) -> (text: &'static [u8])
    ensures
        text@ == fixed_text(*token),
{
    let text: &'static [u8] = match token {
        Token::If => &['i' as u8, 'f' as u8],
        Token::Else => &['e' as u8, 'l' as u8, 's' as u8, 'e' as u8],
        Token::Switch => &['s' as u8, 'w' as u8, 'i' as u8, 't' as u8, 'c' as u8, 'h' as u8],
        Token::Case => &['c' as u8, 'a' as u8, 's' as u8, 'e' as u8],
        Token::Default => &['d' as u8, 'e' as u8, 'f' as u8, 'a' as u8, 'u' as u8, 'l' as u8, 't' as u8],
        Token::Break => &['b' as u8, 'r' as u8, 'e' as u8, 'a' as u8, 'k' as u8],
        Token::Return => &['r' as u8, 'e' as u8, 't' as u8, 'u' as u8, 'r' as u8, 'n' as u8],
        Token::Continue => &['c' as u8, 'o' as u8, 'n' as u8, 't' as u8, 'i' as u8, 'n' as u8, 'u' as u8, 'e' as u8],
        Token::While => &['w' as u8, 'h' as u8, 'i' as u8, 'l' as u8, 'e' as u8],
        Token::For => &['f' as u8, 'o' as u8, 'r' as u8],
        Token::ArrowSingle => &['-' as u8, '>' as u8],
        Token::Plus => &['+' as u8],
        Token::Minus => &['-' as u8],
        Token::Asterisk => &['*' as u8],
        Token::Slash => &['/' as u8],
        Token::Percent => &['%' as u8],
        Token::Bang => &['!' as u8],
        Token::LParenthesis => &['(' as u8],
        Token::RParenthesis => &[')' as u8],
        Token::LCurlyBrace => &['{' as u8],
        Token::RCurlyBrace => &['}' as u8],
        Token::LSquareBracket => &['[' as u8],
        Token::RSquareBracket => &[']' as u8],
        Token::Period => &['.' as u8],
        Token::Comma => &[',' as u8],
        Token::DoubleEquals => &['=' as u8, '=' as u8],
        Token::LessThanOrEquals => &['<' as u8, '=' as u8],
        Token::GreaterThanOrEquals => &['>' as u8, '=' as u8],
        Token::LessThan => &['<' as u8],
        Token::GreaterThan => &['>' as u8],
        Token::NotEquals => &['!' as u8, '=' as u8],
        Token::PlusEquals => &['+' as u8, '=' as u8],
        Token::MinusEquals => &['-' as u8, '=' as u8],
        Token::AsteriskEquals => &['*' as u8, '=' as u8],
        Token::SlashEquals => &['/' as u8, '=' as u8],
        Token::PercentEquals => &['%' as u8, '=' as u8],
        Token::DoubleAmpersand => &['&' as u8, '&' as u8],
        Token::DoublePipe => &['|' as u8, '|' as u8],
        Token::Ampersand => &['&' as u8],
        Token::Pipe => &['|' as u8],
        Token::Tilde => &['~' as u8],
        Token::Caret => &['^' as u8],
        Token::SingleEquals => &['=' as u8],
        Token::Let => &['l' as u8, 'e' as u8, 't' as u8],
        Token::Const => &['c' as u8, 'o' as u8, 'n' as u8, 's' as u8, 't' as u8],
        Token::True => &['t' as u8, 'r' as u8, 'u' as u8, 'e' as u8],
        Token::False => &['f' as u8, 'a' as u8, 'l' as u8, 's' as u8, 'e' as u8],
        Token::Semicolon => &[';' as u8],
        Token::Colon => &[':' as u8],
        _ => &[],
    };
    text
}

/// Classes of bytes that the lexer scans runs of.
#[derive(Clone, Copy, PartialEq, Eq, Structural)]
pub enum ByteClass {
    /// `[ \t\n\f]`
    Whitespace,
    /// `[a-zA-Z0-9_']`
    Word,
    /// `[0-9]`
    Digit,
    /// any byte but `\n`
    NotNewline,
}

pub open spec fn is_lower(c: u8) -> bool {
    'a' as u8 <= c <= 'z' as u8
}

pub open spec fn is_upper(c: u8) -> bool {
    'A' as u8 <= c <= 'Z' as u8
}

pub open spec fn is_digit(c: u8) -> bool {
    '0' as u8 <= c <= '9' as u8
}

/// Whether `c` belongs to the class `class`.
pub open spec fn in_class(class: ByteClass, c: u8) -> bool {
    match class {
        ByteClass::Whitespace => c == ' ' as u8 || c == '\t' as u8 || c == '\n' as u8 || c == 12u8,
        ByteClass::Word => is_lower(c) || is_upper(c) || is_digit(c) || c == '_' as u8 || c == '\'' as u8,
        ByteClass::Digit => is_digit(c),
        ByteClass::NotNewline => c != '\n' as u8,
    }
}

/// The length of the longest run of bytes of `class` that starts at `i`.
pub open spec fn run_len(b: Seq<u8>, i: int, class: ByteClass) -> nat
    decreases b.len() - i,
{
    if 0 <= i < b.len() && in_class(class, b[i]) {
        1 + run_len(b, i + 1, class)
    } else {
        0
    }
}

/// Whether `text` occurs in `b` at `i`.
pub open spec fn text_at(b: Seq<u8>, i: int, text: Seq<u8>) -> bool {
    0 <= i && i + text.len() <= b.len() && b.subrange(i, i + text.len()) == text
}

/// The length of the line comment `//[^\n]*` at `i`, or 0.
pub open spec fn line_comment_len(b: Seq<u8>, i: int) -> nat {
    if text_at(b, i, seq!['/' as u8, '/' as u8]) {
        2 + run_len(b, i + 2, ByteClass::NotNewline)
    } else {
        0
    }
}

/// The greatest `j` with `lo <= j <= hi` at which `*/` occurs, if any.
pub open spec fn last_comment_close(b: Seq<u8>, lo: int, hi: int) -> Option<int>
    decreases hi - lo + 1,
{
    if hi < lo {
        None
    } else if text_at(b, hi, seq!['*' as u8, '/' as u8]) {
        Some(hi)
    } else {
        last_comment_close(b, lo, hi - 1)
    }
}

/// The length of the block comment `/*` .. `*/` at `i`, or 0. The comment is greedy: it runs to
/// the last `*/` of the input.
pub open spec fn block_comment_len(b: Seq<u8>, i: int) -> nat {
    if text_at(b, i, seq!['/' as u8, '*' as u8]) {
        match last_comment_close(b, i + 2, b.len() - 2) {
            Some(j) => (j + 2 - i) as nat,
            None => 0,
        }
    } else {
        0
    }
}

/// The first `j >= from` at which `c` occurs, if any.
pub open spec fn first_byte_from(b: Seq<u8>, from: int, c: u8) -> Option<int>
    decreases b.len() - from,
{
    if from < 0 || from >= b.len() {
        None
    } else if b[from] == c {
        Some(from)
    } else {
        first_byte_from(b, from + 1, c)
    }
}

/// The length of the string literal at `i`: a quote (`"` or `'`), at least one other byte, and the
/// same quote again; or 0.
pub open spec fn string_len(b: Seq<u8>, i: int) -> nat {
    if 0 <= i < b.len() && (b[i] == '"' as u8 || b[i] == '\'' as u8) {
        match first_byte_from(b, i + 1, b[i]) {
            Some(q) => if q > i + 1 { (q + 1 - i) as nat } else { 0 },
            None => 0,
        }
    } else {
        0
    }
}

/// The length of the identifier or type identifier at `i`, or 0.
pub open spec fn word_len(b: Seq<u8>, i: int) -> nat {
    if 0 <= i < b.len() && (is_lower(b[i]) || b[i] == '_' as u8 || is_upper(b[i])) {
        1 + run_len(b, i + 1, ByteClass::Word)
    } else {
        0
    }
}

/// Among the first `k` fixed tokens, the longest one whose text occurs at `i`, with its length;
/// an earlier token wins a tie.
pub open spec fn longest_fixed(b: Seq<u8>, i: int, k: nat) -> Option<(Token, nat)>
    decreases k,
{
    if k == 0 {
        None
    } else {
        let prev = longest_fixed(b, i, (k - 1) as nat);
        let t = fixed_tokens()[k - 1];
        let n = fixed_text(t).len();
        if text_at(b, i, fixed_text(t)) && (prev is None || n > prev.unwrap().1) {
            Some((t, n))
        } else {
            prev
        }
    }
}

/// What a lexeme is.
#[derive(Clone, PartialEq, Eq)]
pub enum Lexeme {
    /// Whitespace or a comment.
    Skip,
    Fixed(Token),
    Identifier,
    TypeIdentifier,
    NumberLiteral,
    StringLiteral,
}

/// The lexeme at `i` with its length: the longest match of any token rule, where a fixed token
/// (such as a keyword) wins a tie with an identifier; `None` when no rule matches.
pub open spec fn lex_at(b: Seq<u8>, i: int) -> Option<(Lexeme, nat)> {
    let ws = run_len(b, i, ByteClass::Whitespace);
    let lc = line_comment_len(b, i);
    let bc = block_comment_len(b, i);
    let w = word_len(b, i);
    let d = run_len(b, i, ByteClass::Digit);
    let s = string_len(b, i);
    let f = longest_fixed(b, i, FIXED_TOKEN_COUNT as nat);
    if ws > 0 {
        Some((Lexeme::Skip, ws))
    } else if lc > 0 {
        Some((Lexeme::Skip, lc))
    } else if bc > 0 {
        Some((Lexeme::Skip, bc))
    } else if f is Some && f.unwrap().1 >= w {
        Some((Lexeme::Fixed(f.unwrap().0), f.unwrap().1))
    } else if w > 0 {
        Some((if is_upper(b[i]) { Lexeme::TypeIdentifier } else { Lexeme::Identifier }, w))
    } else if d > 0 {
        Some((Lexeme::NumberLiteral, d))
    } else if s > 0 {
        Some((Lexeme::StringLiteral, s))
    } else {
        None
    }
}

/// The lexemes (other than skipped ones) of `b` from `i` on, each with its start and end; `None`
/// if some part of the input matches no rule.
pub open spec fn spec_lex_from(b: Seq<u8>, i: int) -> Option<Seq<(Lexeme, int, int)>>
    decreases b.len() - i,
{
    if i < 0 || i >= b.len() {
        Some(seq![])
    } else {
        match lex_at(b, i) {
            None => None,
            Some((lexeme, n)) => if n == 0 || i + n > b.len() {
                None
            } else {
                match spec_lex_from(b, i + n) {
                    None => None,
                    Some(rest) => match lexeme {
                        Lexeme::Skip => Some(rest),
                        _ => Some(seq![(lexeme, i, i + n)] + rest),
                    },
                }
            },
        }
    }
}

/// The lexemes of a whole input.
pub open spec fn spec_lex(b: Seq<u8>) -> Option<Seq<(Lexeme, int, int)>> {
    spec_lex_from(b, 0)
}

/// There are no more lexemes from `i` on than there are bytes.
pub proof fn lemma_lex_from_len(b: Seq<u8>, i: int)
    requires
        0 <= i,
        spec_lex_from(b, i) is Some,
    ensures
        spec_lex_from(b, i).unwrap().len() <= if i <= b.len() { b.len() - i } else { 0 },
    decreases b.len() - i,
{
    if i < b.len() {
        let (lexeme, n) = lex_at(b, i).unwrap();
        lemma_lex_from_len(b, i + n);
    }
}

/// The lexemes `ls` lie within `lo..hi`, in order and without overlapping; none is empty and
/// none is a skipped one.
pub open spec fn lexemes_in_order(ls: Seq<(Lexeme, int, int)>, lo: int, hi: int) -> bool {
    &&& forall|k: int| 0 <= k < ls.len() ==> lo <= (#[trigger] ls[k]).1 < ls[k].2 <= hi && !(ls[k].0 is Skip)
    &&& forall|k: int, j: int| 0 <= k < j < ls.len() ==> (#[trigger] ls[k]).2 <= (#[trigger] ls[j]).1
}

proof fn lemma_lex_from_in_order(b: Seq<u8>, i: int)
    requires
        0 <= i,
        spec_lex_from(b, i) is Some,
    ensures
        lexemes_in_order(spec_lex_from(b, i).unwrap(), i, b.len() as int),
    decreases b.len() - i,
{
    if i < b.len() {
        let (lexeme, n) = lex_at(b, i).unwrap();
        lemma_lex_from_in_order(b, i + n);
        let rest = spec_lex_from(b, i + n).unwrap();
        if !(lexeme is Skip) {
            let all = seq![(lexeme, i, i + n)] + rest;
            assert forall|k: int, j: int| 0 <= k < j < all.len() implies (#[trigger] all[k]).2 <= (#[trigger] all[j]).1 by {
                if k > 0 {
                    assert(all[k] == rest[k - 1]);
                    assert(all[j] == rest[j - 1]);
                } else {
                    assert(all[j] == rest[j - 1]);
                }
            }
            assert forall|k: int| 0 <= k < all.len() implies i <= (#[trigger] all[k]).1 < all[k].2 <= b.len() && !(all[k].0 is Skip) by {
                if k > 0 {
                    assert(all[k] == rest[k - 1]);
                }
            }
        }
    }
}

/// The lexemes of an input lie within it, in order and without overlapping, and none is empty.
pub proof fn law_lexemes_in_order(b: Seq<u8>)
    requires
        spec_lex(b) is Some,
    ensures
        lexemes_in_order(spec_lex(b).unwrap(), 0, b.len() as int),
{
    lemma_lex_from_in_order(b, 0);
}

/// The tokens of an input have spans in its source that lie within it, in order and without
/// overlapping, and none is empty.
pub proof fn law_tokens_in_order(tokens: Seq<(Token, SourceIDSpan)>, b: Seq<u8>, source_id: SourceID)
    requires
        b.len() < usize::MAX,
        spec_lex(b) is Some,
        tokens_denote(tokens, spec_lex(b).unwrap(), b, source_id),
    ensures
        forall|k: int| 0 <= k < tokens.len() ==> {
            &&& (#[trigger] tokens[k]).1.context == source_id
            &&& tokens[k].1.start < tokens[k].1.end <= b.len()
        },
        forall|k: int, j: int| 0 <= k < j < tokens.len() ==> (#[trigger] tokens[k]).1.end <= (#[trigger] tokens[j]).1.start,
{
    let ls = spec_lex(b).unwrap();
    lemma_lex_from_in_order(b, 0);
    assert forall|k: int| 0 <= k < tokens.len() implies {
        &&& (#[trigger] tokens[k]).1.context == source_id
        &&& tokens[k].1.start < tokens[k].1.end <= b.len()
    } by {
        assert(token_denotes(tokens[k].0, ls[k].0, b, ls[k].1, ls[k].2));
        assert(ls[k].1 < ls[k].2 <= b.len());
    }
    assert forall|k: int, j: int| 0 <= k < j < tokens.len() implies (#[trigger] tokens[k]).1.end <= (#[trigger] tokens[j]).1.start by {
        assert(token_denotes(tokens[k].0, ls[k].0, b, ls[k].1, ls[k].2));
        assert(token_denotes(tokens[j].0, ls[j].0, b, ls[j].1, ls[j].2));
        assert(ls[k].2 <= ls[j].1);
        assert(0 <= ls[j].1 < ls[j].2 <= b.len());
        assert(0 <= ls[k].1 < ls[k].2 <= b.len());
    }
}

/// `token` is the token of `lexeme`, found at `start..end` of `b`: a fixed token is that token, and
/// the others hold the text they were read from (a string literal without its quotes).
pub open spec fn token_denotes(token: Token, lexeme: Lexeme, b: Seq<u8>, start: int, end: int) -> bool {
    match lexeme {
        Lexeme::Skip => false,
        Lexeme::Fixed(t) => token == t,
        Lexeme::Identifier => token matches Token::Identifier(s) && bytes_of(s@) == b.subrange(start, end),
        Lexeme::TypeIdentifier => token matches Token::TypeIdentifier(s) && bytes_of(s@) == b.subrange(start, end),
        Lexeme::NumberLiteral => token matches Token::NumberLiteral(s) && bytes_of(s@) == b.subrange(start, end),
        Lexeme::StringLiteral => token matches Token::StringLiteral(s) && bytes_of(s@) == b.subrange(start + 1, end - 1),
    }
}

/// `tokens` are the tokens of `lexemes`, with spans in the source `source_id`.
pub open spec fn tokens_denote(tokens: Seq<(Token, SourceIDSpan)>, lexemes: Seq<(Lexeme, int, int)>, b: Seq<u8>, source_id: SourceID) -> bool {
    &&& tokens.len() == lexemes.len()
    &&& forall|k: int| 0 <= k < tokens.len() ==> {
        &&& token_denotes(#[trigger] tokens[k].0, lexemes[k].0, b, lexemes[k].1, lexemes[k].2)
        &&& tokens[k].1 == SourceIDSpan { context: source_id, start: lexemes[k].1 as usize, end: lexemes[k].2 as usize }
    }
}

fn in_class_exec(class: ByteClass, c: u8) -> (r: bool)
    ensures
        r == in_class(class, c),
{
    match class {
        ByteClass::Whitespace => c == ' ' as u8 || c == '\t' as u8 || c == '\n' as u8 || c == 12u8,
        ByteClass::Word => ('a' as u8 <= c && c <= 'z' as u8) || ('A' as u8 <= c && c <= 'Z' as u8)
            || ('0' as u8 <= c && c <= '9' as u8) || c == '_' as u8 || c == '\'' as u8,
        ByteClass::Digit => '0' as u8 <= c && c <= '9' as u8,
        ByteClass::NotNewline => c != '\n' as u8,
    }
}

fn scan_run(b: &[u8], i: usize, class: ByteClass) -> (n: usize)
    ensures
        n == run_len(b@, i as int, class),
        i + n <= b@.len() || n == 0,
{
    let mut j = i;
    while j < b.len() && in_class_exec(class, b[j])
        invariant
            i <= j,
            j <= b@.len() || j == i,
            run_len(b@, i as int, class) == (j - i) + run_len(b@, j as int, class),
        decreases b@.len() - j,
    {
        j = j + 1;
    }
    j - i
}

fn bytes_at(b: &[u8], i: usize, text: &[u8]) -> (found: bool)
    ensures
        found == text_at(b@, i as int, text@),
{
    if i > b.len() || text.len() > b.len() - i {
        return false;
    }
    let mut k: usize = 0;
    while k < text.len()
        invariant
            b@.len() <= usize::MAX,
            i <= b@.len(),
            i + text@.len() <= b@.len(),
            k <= text@.len(),
            forall|m: int| 0 <= m < k ==> b@[i + m] == text@[m],
        decreases text@.len() - k,
    {
        if b[i + k] != text[k] {
            assert(b@.subrange(i as int, i + text@.len())[k as int] != text@[k as int]);
            return false;
        }
        k = k + 1;
    }
    assert(b@.subrange(i as int, i + text@.len()) =~= text@);
    true
}

fn line_comment_at(b: &[u8], i: usize) -> (n: usize)
    requires
        b@.len() < usize::MAX,
    ensures
        n == line_comment_len(b@, i as int),
{
    let slashes: &[u8] = &['/' as u8, '/' as u8];
    assert(slashes@ == seq!['/' as u8, '/' as u8]);
    if bytes_at(b, i, slashes) {
        let n = scan_run(b, i + 2, ByteClass::NotNewline);
        2 + n
    } else {
        0
    }
}

fn block_comment_at(b: &[u8], i: usize) -> (n: usize)
    requires
        b@.len() < usize::MAX,
    ensures
        n == block_comment_len(b@, i as int),
{
    let open: &[u8] = &['/' as u8, '*' as u8];
    let close: &[u8] = &['*' as u8, '/' as u8];
    assert(open@ == seq!['/' as u8, '*' as u8]);
    assert(close@ == seq!['*' as u8, '/' as u8]);
    if !bytes_at(b, i, open) {
        return 0;
    }
    assert(i + 2 <= b@.len());
    let start = i + 2;
    let mut j: usize = b.len() - 2;
    loop
        invariant
            start == i + 2,
            b@.len() < usize::MAX,
            start <= b@.len(),
            j + 2 <= b@.len(),
            text_at(b@, i as int, seq!['/' as u8, '*' as u8]),
            close@ == seq!['*' as u8, '/' as u8],
            last_comment_close(b@, start as int, b@.len() - 2) == last_comment_close(b@, start as int, j as int),
        decreases j,
    {
        if j < start {
            return 0;
        }
        if bytes_at(b, j, close) {
            return j + 2 - i;
        }
        if j == 0 {
            return 0;
        }
        j = j - 1;
    }
}

fn first_byte_exec(b: &[u8], from: usize, c: u8) -> (found: Option<usize>)
    ensures
        match found {
            Some(q) => first_byte_from(b@, from as int, c) == Some(q as int),
            None => first_byte_from(b@, from as int, c) is None,
        },
{
    let mut j = from;
    while j < b.len()
        invariant
            from <= j,
            first_byte_from(b@, from as int, c) == first_byte_from(b@, j as int, c),
        decreases b@.len() - j,
    {
        if b[j] == c {
            return Some(j);
        }
        j = j + 1;
    }
    None
}

fn string_at(b: &[u8], i: usize) -> (n: usize)
    requires
        b@.len() < usize::MAX,
    ensures
        n == string_len(b@, i as int),
{
    if i < b.len() && (b[i] == '"' as u8 || b[i] == '\'' as u8) {
        match first_byte_exec(b, i + 1, b[i]) {
            Some(q) => {
                proof { lemma_first_byte_bounds(b@, i + 1, b@[i as int]); }
                if q > i + 1 { q + 1 - i } else { 0 }
            },
            None => 0,
        }
    } else {
        0
    }
}

fn word_at(b: &[u8], i: usize) -> (n: usize)
    requires
        b@.len() < usize::MAX,
    ensures
        n == word_len(b@, i as int),
{
    if i < b.len() && (('a' as u8 <= b[i] && b[i] <= 'z' as u8) || b[i] == '_' as u8 || ('A' as u8 <= b[i] && b[i] <= 'Z' as u8)) {
        1 + scan_run(b, i + 1, ByteClass::Word)
    } else {
        0
    }
}

fn longest_fixed_at(b: &[u8], i: usize) -> (best: Option<(Token, usize)>)
    ensures
        match best {
            Some((t, n)) => longest_fixed(b@, i as int, FIXED_TOKEN_COUNT as nat) == Some((t, n as nat)),
            None => longest_fixed(b@, i as int, FIXED_TOKEN_COUNT as nat) is None,
        },
{
    let mut best: Option<(Token, usize)> = None;
    let mut k: usize = 0;
    while k < FIXED_TOKEN_COUNT
        invariant
            k <= FIXED_TOKEN_COUNT,
            match best {
                Some((t, n)) => longest_fixed(b@, i as int, k as nat) == Some((t, n as nat)),
                None => longest_fixed(b@, i as int, k as nat) is None,
            },
        decreases FIXED_TOKEN_COUNT - k,
    {
        let t = fixed_token(k);
        let text = fixed_token_bytes(&t);
        if bytes_at(b, i, text) {
            let longer = match &best {
                None => true,
                Some((_, n)) => text.len() > *n,
            };
            if longer {
                best = Some((t, text.len()));
            }
        }
        k = k + 1;
    }
    best
}

proof fn lemma_first_byte_bounds(b: Seq<u8>, from: int, c: u8)
    ensures
        first_byte_from(b, from, c) matches Some(q) ==> from <= q < b.len() && b[q] == c,
    decreases b.len() - from,
{
    if 0 <= from < b.len() && b[from] != c {
        lemma_first_byte_bounds(b, from + 1, c);
    }
}

proof fn lemma_run_bytes(b: Seq<u8>, i: int, class: ByteClass)
    requires
        0 <= i,
    ensures
        run_len(b, i, class) > 0 ==> i + run_len(b, i, class) <= b.len(),
        forall|k: int| i <= k < i + run_len(b, i, class) ==> in_class(class, #[trigger] b[k]),
    decreases b.len() - i,
{
    if 0 <= i < b.len() && in_class(class, b[i]) {
        lemma_run_bytes(b, i + 1, class);
    }
}

/// The lexeme at `i`, as `lex_at` describes it.
fn lex_at_exec(b: &[u8], i: usize) -> (lexeme: Option<(Lexeme, usize)>)
    requires
        b@.len() < usize::MAX,
        i < b@.len(),
    ensures
        match (lexeme, lex_at(b@, i as int)) {
            (Some((l, n)), Some((sl, sn))) => l == sl && n == sn,
            (None, None) => true,
            _ => false,
        },
{
    let ws = scan_run(b, i, ByteClass::Whitespace);
    if ws > 0 {
        return Some((Lexeme::Skip, ws));
    }
    let lc = line_comment_at(b, i);
    if lc > 0 {
        return Some((Lexeme::Skip, lc));
    }
    let bc = block_comment_at(b, i);
    if bc > 0 {
        return Some((Lexeme::Skip, bc));
    }
    let w = word_at(b, i);
    match longest_fixed_at(b, i) {
        Some((t, n)) => {
            if n >= w {
                return Some((Lexeme::Fixed(t), n));
            }
        },
        None => {},
    }
    if w > 0 {
        if 'A' as u8 <= b[i] && b[i] <= 'Z' as u8 {
            return Some((Lexeme::TypeIdentifier, w));
        } else {
            return Some((Lexeme::Identifier, w));
        }
    }
    let d = scan_run(b, i, ByteClass::Digit);
    if d > 0 {
        return Some((Lexeme::NumberLiteral, d));
    }
    let s = string_at(b, i);
    if s > 0 {
        return Some((Lexeme::StringLiteral, s));
    }
    None
}

/// Splits `src` into tokens, with spans in the source `source_id`; `None` if some part of `src`
/// matches no token rule.
#[verifier::spinoff_prover]
pub fn tokenize(src: &str, source_id: SourceID) -> (tokens: Option<Vec<(Token, SourceIDSpan)>>)
    requires
        bytes_of(src@).len() < usize::MAX,
    ensures
        match tokens {
            Some(tokens) => spec_lex(bytes_of(src@)) matches Some(lexemes) && tokens_denote(tokens@, lexemes, bytes_of(src@), source_id),
            None => spec_lex(bytes_of(src@)) is None,
        },
{
    let b = src.as_bytes();
    let mut tokens: Vec<(Token, SourceIDSpan)> = Vec::new();
    let mut i: usize = 0;
    let ghost mut done: Seq<(Lexeme, int, int)> = seq![];
    proof {
        vstd::utf8::encode_utf8_valid_utf8(src@);
    }
    while i < b.len()
        invariant
            b@ == bytes_of(src@),
            vstd::utf8::valid_utf8(b@),
            b@.len() < usize::MAX,
            i <= b@.len(),
            spec_lex(b@) == (match spec_lex_from(b@, i as int) {
                None => None,
                Some(r) => Some(done + r),
            }),
            tokens_denote(tokens@, done, b@, source_id),
        decreases b@.len() - i,
    {
        let (lexeme, n) = match lex_at_exec(b, i) {
            None => return None,
            Some(found) => found,
        };
        if n == 0 || n > b.len() - i {
            return None;
        }
        let end = i + n;
        let ghost entry = (lexeme, i as int, end as int);
        let ghost before = tokens@;
        let span = SourceIDSpan { context: source_id, start: i, end };
        proof {
            lemma_run_bytes(b@, i as int, ByteClass::Whitespace);
        }
        match lexeme {
            Lexeme::Skip => {},
            Lexeme::Fixed(t) => {
                tokens.push((t, span));
            },
            Lexeme::Identifier => {
                proof { lemma_word_boundaries(b@, i as int, n as int); }
                tokens.push((Token::Identifier(substring(src, i, end)), span));
            },
            Lexeme::TypeIdentifier => {
                proof { lemma_word_boundaries(b@, i as int, n as int); }
                tokens.push((Token::TypeIdentifier(substring(src, i, end)), span));
            },
            Lexeme::NumberLiteral => {
                proof { lemma_number_boundaries(b@, i as int, n as int); }
                tokens.push((Token::NumberLiteral(substring(src, i, end)), span));
            },
            Lexeme::StringLiteral => {
                proof { lemma_string_boundaries(b@, i as int, n as int); }
                tokens.push((Token::StringLiteral(substring(src, i + 1, end - 1)), span));
            },
        }
        proof {
            if !(entry.0 is Skip) {
                assert(tokens@ == before.push(tokens@.last()));
                assert(token_denotes(tokens@.last().0, entry.0, b@, entry.1, entry.2));
                lemma_tokens_denote_push(before, done, b@, source_id, tokens@.last(), entry);
                let old_done = done;
                done = done.push(entry);
                if let Some(r) = spec_lex_from(b@, end as int) {
                    assert(old_done + (seq![entry] + r) =~= done + r);
                }
            }
        }
        i = end;
    }
    proof {
        assert(done + seq![] =~= done);
    }
    Some(tokens)
}

proof fn lemma_tokens_denote_push(
    tokens: Seq<(Token, SourceIDSpan)>,
    lexemes: Seq<(Lexeme, int, int)>,
    b: Seq<u8>,
    source_id: SourceID,
    token: (Token, SourceIDSpan),
    lexeme: (Lexeme, int, int),
)
    requires
        tokens_denote(tokens, lexemes, b, source_id),
        token_denotes(token.0, lexeme.0, b, lexeme.1, lexeme.2),
        token.1 == (SourceIDSpan { context: source_id, start: lexeme.1 as usize, end: lexeme.2 as usize }),
    ensures
        tokens_denote(tokens.push(token), lexemes.push(lexeme), b, source_id),
{
    let t2 = tokens.push(token);
    let l2 = lexemes.push(lexeme);
    assert forall|k: int| 0 <= k < t2.len() implies {
        &&& token_denotes(#[trigger] t2[k].0, l2[k].0, b, l2[k].1, l2[k].2)
        &&& t2[k].1 == SourceIDSpan { context: source_id, start: l2[k].1 as usize, end: l2[k].2 as usize }
    } by {
        if k < tokens.len() {
            assert(t2[k] == tokens[k]);
            assert(l2[k] == lexemes[k]);
        }
    }
}

proof fn lemma_word_boundaries(b: Seq<u8>, i: int, n: int)
    requires
        vstd::utf8::valid_utf8(b),
        0 <= i,
        n > 0,
        n == word_len(b, i),
    ensures
        i + n <= b.len(),
        vstd::utf8::is_char_boundary(b, i),
        vstd::utf8::is_char_boundary(b, i + n),
{
    lemma_run_bytes(b, i + 1, ByteClass::Word);
    crate::text::lemma_ascii_boundaries(b, i);
    if n > 1 {
        assert(in_class(ByteClass::Word, b[i + n - 1]));
    }
    crate::text::lemma_ascii_boundaries(b, i + n - 1);
}

proof fn lemma_number_boundaries(b: Seq<u8>, i: int, n: int)
    requires
        vstd::utf8::valid_utf8(b),
        0 <= i,
        n > 0,
        n == run_len(b, i, ByteClass::Digit),
    ensures
        i + n <= b.len(),
        vstd::utf8::is_char_boundary(b, i),
        vstd::utf8::is_char_boundary(b, i + n),
{
    lemma_run_bytes(b, i, ByteClass::Digit);
    assert(in_class(ByteClass::Digit, b[i]));
    assert(in_class(ByteClass::Digit, b[i + n - 1]));
    crate::text::lemma_ascii_boundaries(b, i);
    crate::text::lemma_ascii_boundaries(b, i + n - 1);
}

proof fn lemma_string_boundaries(b: Seq<u8>, i: int, n: int)
    requires
        vstd::utf8::valid_utf8(b),
        0 <= i,
        n > 0,
        n == string_len(b, i),
    ensures
        i + n <= b.len(),
        n >= 3,
        vstd::utf8::is_char_boundary(b, i + 1),
        vstd::utf8::is_char_boundary(b, i + n - 1),
{
    lemma_first_byte_bounds(b, i + 1, b[i]);
    crate::text::lemma_ascii_boundaries(b, i);
    crate::text::lemma_ascii_boundaries(b, i + n - 1);
}

/// Splits `src` into tokens, with spans in the source `source_id`. Every part of `src` must match
/// a token rule.
pub fn run(src: &str, source_id: SourceID) -> (result: Result<Vec<(Token, SourceIDSpan)>, String>)
    requires
        bytes_of(src@).len() < usize::MAX,
        spec_lex(bytes_of(src@)) is Some,
    ensures
        result matches Ok(tokens) && tokens_denote(tokens@, spec_lex(bytes_of(src@)).unwrap(), bytes_of(src@), source_id),
{
    match tokenize(src, source_id) {
        Some(tokens) => Ok(tokens),
        None => {
            assert(false);
            Err(String::new())
        },
    }
}


/// The position of a token's variant in the declaration of `Token`.
pub open spec fn spec_token_index(token: Token) -> u8 {
    match token {
        Token::LineComment => 0,
        Token::BlockComment => 1,
        Token::If => 2,
        Token::Else => 3,
        Token::Switch => 4,
        Token::Case => 5,
        Token::Default => 6,
        Token::Break => 7,
        Token::Return => 8,
        Token::Continue => 9,
        Token::While => 10,
        Token::For => 11,
        Token::ArrowSingle => 12,
        Token::Plus => 13,
        Token::Minus => 14,
        Token::Asterisk => 15,
        Token::Slash => 16,
        Token::Percent => 17,
        Token::Bang => 18,
        Token::LParenthesis => 19,
        Token::RParenthesis => 20,
        Token::LCurlyBrace => 21,
        Token::RCurlyBrace => 22,
        Token::LSquareBracket => 23,
        Token::RSquareBracket => 24,
        Token::Period => 25,
        Token::Comma => 26,
        Token::DoubleEquals => 27,
        Token::LessThanOrEquals => 28,
        Token::GreaterThanOrEquals => 29,
        Token::LessThan => 30,
        Token::GreaterThan => 31,
        Token::NotEquals => 32,
        Token::PlusEquals => 33,
        Token::MinusEquals => 34,
        Token::AsteriskEquals => 35,
        Token::SlashEquals => 36,
        Token::PercentEquals => 37,
        Token::DoubleAmpersand => 38,
        Token::DoublePipe => 39,
        Token::Ampersand => 40,
        Token::Pipe => 41,
        Token::Tilde => 42,
        Token::Caret => 43,
        Token::SingleEquals => 44,
        Token::Let => 45,
        Token::Const => 46,
        Token::True => 47,
        Token::False => 48,
        Token::Semicolon => 49,
        Token::Colon => 50,
        Token::Identifier(_) => 51,
        Token::TypeIdentifier(_) => 52,
        Token::StringLiteral(_) => 53,
        Token::NumberLiteral(_) => 54,
    }
}

/// The position of a token's variant in the declaration of `Token`.
pub fn token_index(token: &Token) -> (index: u8)
    ensures
        index == spec_token_index(*token),
{
    match token {
        Token::LineComment => 0,
        Token::BlockComment => 1,
        Token::If => 2,
        Token::Else => 3,
        Token::Switch => 4,
        Token::Case => 5,
        Token::Default => 6,
        Token::Break => 7,
        Token::Return => 8,
        Token::Continue => 9,
        Token::While => 10,
        Token::For => 11,
        Token::ArrowSingle => 12,
        Token::Plus => 13,
        Token::Minus => 14,
        Token::Asterisk => 15,
        Token::Slash => 16,
        Token::Percent => 17,
        Token::Bang => 18,
        Token::LParenthesis => 19,
        Token::RParenthesis => 20,
        Token::LCurlyBrace => 21,
        Token::RCurlyBrace => 22,
        Token::LSquareBracket => 23,
        Token::RSquareBracket => 24,
        Token::Period => 25,
        Token::Comma => 26,
        Token::DoubleEquals => 27,
        Token::LessThanOrEquals => 28,
        Token::GreaterThanOrEquals => 29,
        Token::LessThan => 30,
        Token::GreaterThan => 31,
        Token::NotEquals => 32,
        Token::PlusEquals => 33,
        Token::MinusEquals => 34,
        Token::AsteriskEquals => 35,
        Token::SlashEquals => 36,
        Token::PercentEquals => 37,
        Token::DoubleAmpersand => 38,
        Token::DoublePipe => 39,
        Token::Ampersand => 40,
        Token::Pipe => 41,
        Token::Tilde => 42,
        Token::Caret => 43,
        Token::SingleEquals => 44,
        Token::Let => 45,
        Token::Const => 46,
        Token::True => 47,
        Token::False => 48,
        Token::Semicolon => 49,
        Token::Colon => 50,
        Token::Identifier(_) => 51,
        Token::TypeIdentifier(_) => 52,
        Token::StringLiteral(_) => 53,
        Token::NumberLiteral(_) => 54,
    }
}

/// A token without a payload is determined by its variant.
pub proof fn lemma_token_index_fixed(a: Token, b: Token)
    requires
        spec_token_index(a) == spec_token_index(b),
        !(a is Identifier || a is TypeIdentifier || a is StringLiteral || a is NumberLiteral),
    ensures
        a == b,
{
}


/// Where a lexeme may start, a blank byte (a space, a tab, a line feed or a form feed) contributes
/// nothing: the lexemes from it on are the lexemes from the byte after it on. Lexing never fails
/// on such a byte, and it is part of no token.
pub proof fn law_blank_bytes_are_skipped(b: Seq<u8>, i: int)
    requires
        0 <= i < b.len(),
        b[i] == ' ' as u8 || b[i] == '\t' as u8 || b[i] == '\n' as u8 || b[i] == 12u8,
    ensures
        spec_lex_from(b, i) == spec_lex_from(b, i + 1),
        lex_at(b, i) matches Some((Lexeme::Skip, n)) && n >= 1,
{
    lemma_run_bytes(b, i, ByteClass::Whitespace);
    let ws = run_len(b, i, ByteClass::Whitespace);
    assert(ws == 1 + run_len(b, i + 1, ByteClass::Whitespace));
    if ws > 1 {
        lemma_run_bytes(b, i + 1, ByteClass::Whitespace);
        assert(in_class(ByteClass::Whitespace, b[i + 1]));
    }
}

} // verus!
