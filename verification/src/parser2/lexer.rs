use vstd::prelude::*;

use crate::lexer::{in_class, lemma_lexeme_boundaries, run_len, scan_run, spells, Class};
use crate::source::bytes_of;
use crate::text::substring;

verus! {

/// The text of an identifier or a number literal.
#[derive(Debug, PartialEq, Default, Eq, Hash, Clone)]
pub struct TokenData {
    pub value: String,
}

/// The tokens of the small function language. Blanks (`[ \t\n\f]+`) between tokens are skipped.
#[derive(Debug, PartialEq, Eq, Hash, Clone)]
pub enum Token {
    If,
    Else,
    While,
    For,
    Plus,
    Minus,
    Times,
    Division,
    Modulo,
    LParenthesis,
    RParenthesis,
    LCurlyBrace,
    RCurlyBrace,
    LSquareBracket,
    RSquareBracket,
    Period,
    Comma,
    Equals,
    LessThanOrEquals,
    GreaterThanOrEquals,
    LessThan,
    GreaterThan,
    Assign,
    Let,
    Function,
    Return,
    Semicolon,
    /// `[a-zA-Z]+` that is not a keyword.
    Identifier(TokenData),
    /// `[0-9]+`
    NumberLiteral(TokenData),
}

/// The keyword spelled by the word `w`, if it is one.
pub open spec fn keyword(w: Seq<u8>) -> Option<Token> {
    if w == seq!['i' as u8, 'f' as u8] {
        Some(Token::If)
    } else if w == seq!['e' as u8, 'l' as u8, 's' as u8, 'e' as u8] {
        Some(Token::Else)
    } else if w == seq!['w' as u8, 'h' as u8, 'i' as u8, 'l' as u8, 'e' as u8] {
        Some(Token::While)
    } else if w == seq!['f' as u8, 'o' as u8, 'r' as u8] {
        Some(Token::For)
    } else if w == seq!['l' as u8, 'e' as u8, 't' as u8] {
        Some(Token::Let)
    } else if w == seq!['f' as u8, 'u' as u8, 'n' as u8, 'c' as u8, 't' as u8, 'i' as u8, 'o' as u8, 'n' as u8] {
        Some(Token::Function)
    } else if w == seq!['r' as u8, 'e' as u8, 't' as u8, 'u' as u8, 'r' as u8, 'n' as u8] {
        Some(Token::Return)
    } else {
        None
    }
}

/// The operator or punctuation token at `i` with its length; a two-byte operator wins over its
/// one-byte prefix.
pub open spec fn symbol_at(b: Seq<u8>, i: int) -> Option<(Token, nat)> {
    if 0 <= i < b.len() {
        let c = b[i];
        let eq_next = i + 1 < b.len() && b[i + 1] == '=' as u8;
        if c == '=' as u8 {
            if eq_next { Some((Token::Equals, 2)) } else { Some((Token::Assign, 1)) }
        } else if c == '<' as u8 {
            if eq_next { Some((Token::LessThanOrEquals, 2)) } else { Some((Token::LessThan, 1)) }
        } else if c == '>' as u8 {
            if eq_next { Some((Token::GreaterThanOrEquals, 2)) } else { Some((Token::GreaterThan, 1)) }
        } else if c == '+' as u8 {
            Some((Token::Plus, 1))
        } else if c == '-' as u8 {
            Some((Token::Minus, 1))
        } else if c == '*' as u8 {
            Some((Token::Times, 1))
        } else if c == '/' as u8 {
            Some((Token::Division, 1))
        } else if c == '%' as u8 {
            Some((Token::Modulo, 1))
        } else if c == '(' as u8 {
            Some((Token::LParenthesis, 1))
        } else if c == ')' as u8 {
            Some((Token::RParenthesis, 1))
        } else if c == '{' as u8 {
            Some((Token::LCurlyBrace, 1))
        } else if c == '}' as u8 {
            Some((Token::RCurlyBrace, 1))
        } else if c == '[' as u8 {
            Some((Token::LSquareBracket, 1))
        } else if c == ']' as u8 {
            Some((Token::RSquareBracket, 1))
        } else if c == '.' as u8 {
            Some((Token::Period, 1))
        } else if c == ',' as u8 {
            Some((Token::Comma, 1))
        } else if c == ';' as u8 {
            Some((Token::Semicolon, 1))
        } else {
            None
        }
    } else {
        None
    }
}

/// What a lexeme is.
pub enum Lexeme {
    /// A run of blanks.
    Skip,
    /// A keyword, operator or punctuation token.
    Fixed(Token),
    Identifier,
    NumberLiteral,
}

/// The lexeme at `i` with its length, the longest match of any rule (a keyword wins a tie with an
/// identifier); `None` when no rule matches.
pub open spec fn lex_at(b: Seq<u8>, i: int) -> Option<(Lexeme, nat)> {
    let blanks = run_len(b, i, Class::Blank);
    let letters = run_len(b, i, Class::Letter);
    let digits = run_len(b, i, Class::Digit);
    if blanks > 0 {
        Some((Lexeme::Skip, blanks))
    } else if letters > 0 {
        match keyword(b.subrange(i, i + letters)) {
            Some(k) => Some((Lexeme::Fixed(k), letters)),
            None => Some((Lexeme::Identifier, letters)),
        }
    } else if digits > 0 {
        Some((Lexeme::NumberLiteral, digits))
    } else {
        match symbol_at(b, i) {
            Some((k, n)) => Some((Lexeme::Fixed(k), n)),
            None => None,
        }
    }
}

/// The lexemes (other than blanks) of `b` from `i` on, each with its start and end; on failure
/// the offset of the first byte where no rule matches.
pub open spec fn spec_lex_from(b: Seq<u8>, i: int) -> Result<Seq<(Lexeme, int, int)>, int>
    decreases b.len() - i,
{
    if i < 0 || i >= b.len() {
        Ok(seq![])
    } else {
        match lex_at(b, i) {
            None => Err(i),
            Some((lexeme, n)) => if n == 0 || i + n > b.len() {
                Err(i)
            } else {
                match spec_lex_from(b, i + n) {
                    Err(k) => Err(k),
                    Ok(rest) => match lexeme {
                        Lexeme::Skip => Ok(rest),
                        _ => Ok(seq![(lexeme, i, i + n)] + rest),
                    },
                }
            },
        }
    }
}

/// The lexemes of a whole input.
pub open spec fn spec_lex(b: Seq<u8>) -> Result<Seq<(Lexeme, int, int)>, int> {
    spec_lex_from(b, 0)
}

/// The token `tok` is the lexeme `l` found at `start..end` of `b`.
pub open spec fn token_denotes(tok: Token, l: Lexeme, b: Seq<u8>, start: int, end: int) -> bool {
    match l {
        Lexeme::Skip => false,
        Lexeme::Fixed(k) => tok == k,
        Lexeme::Identifier => tok is Identifier && bytes_of(tok->Identifier_0.value@) == b.subrange(start, end),
        Lexeme::NumberLiteral => tok is NumberLiteral && bytes_of(tok->NumberLiteral_0.value@) == b.subrange(start, end),
    }
}

/// The tokens `ts` are, one for one, the lexemes `ls` of `b`.
pub open spec fn tokens_denote(ts: Seq<Token>, ls: Seq<(Lexeme, int, int)>, b: Seq<u8>) -> bool {
    &&& ts.len() == ls.len()
    &&& forall|k: int| 0 <= k < ts.len() ==> token_denotes(#[trigger] ts[k], ls[k].0, b, ls[k].1, ls[k].2)
}

/// The keyword spelled by `b[i..i + n]`, as `keyword` describes it.
fn keyword_exec(b: &[u8], i: usize, n: usize) -> (k: Option<Token>)
    requires
        i + n <= b@.len(),
    ensures
        k == keyword(b@.subrange(i as int, i + n)),
{
    let ghost w = b@.subrange(i as int, i + n);
    if spells(b, i, n, &['i' as u8, 'f' as u8]) {
        proof { assert(w =~= seq!['i' as u8, 'f' as u8]); }
        Some(Token::If)
    } else if spells(b, i, n, &['e' as u8, 'l' as u8, 's' as u8, 'e' as u8]) {
        proof { assert(w =~= seq!['e' as u8, 'l' as u8, 's' as u8, 'e' as u8]); }
        Some(Token::Else)
    } else if spells(b, i, n, &['w' as u8, 'h' as u8, 'i' as u8, 'l' as u8, 'e' as u8]) {
        proof { assert(w =~= seq!['w' as u8, 'h' as u8, 'i' as u8, 'l' as u8, 'e' as u8]); }
        Some(Token::While)
    } else if spells(b, i, n, &['f' as u8, 'o' as u8, 'r' as u8]) {
        proof { assert(w =~= seq!['f' as u8, 'o' as u8, 'r' as u8]); }
        Some(Token::For)
    } else if spells(b, i, n, &['l' as u8, 'e' as u8, 't' as u8]) {
        proof { assert(w =~= seq!['l' as u8, 'e' as u8, 't' as u8]); }
        Some(Token::Let)
    } else if spells(b, i, n, &['f' as u8, 'u' as u8, 'n' as u8, 'c' as u8, 't' as u8, 'i' as u8, 'o' as u8, 'n' as u8]) {
        proof { assert(w =~= seq!['f' as u8, 'u' as u8, 'n' as u8, 'c' as u8, 't' as u8, 'i' as u8, 'o' as u8, 'n' as u8]); }
        Some(Token::Function)
    } else if spells(b, i, n, &['r' as u8, 'e' as u8, 't' as u8, 'u' as u8, 'r' as u8, 'n' as u8]) {
        proof { assert(w =~= seq!['r' as u8, 'e' as u8, 't' as u8, 'u' as u8, 'r' as u8, 'n' as u8]); }
        Some(Token::Return)
    } else {
        proof {
            assert(w != seq!['i' as u8, 'f' as u8]);
        }
        None
    }
}


/// The operator or punctuation token at `i`, as `symbol_at` describes it.
fn symbol_at_exec(b: &[u8], i: usize) -> (r: Option<(Token, usize)>)
    requires
        i < b@.len(),
    ensures
        match (r, symbol_at(b@, i as int)) {
            (Some((t, n)), Some((st, sn))) => t == st && n == sn,
            (None, None) => true,
            _ => false,
        },
{
    let c = b[i];
    let eq_next = i + 1 < b.len() && b[i + 1] == '=' as u8;
    if c == '=' as u8 {
        if eq_next { Some((Token::Equals, 2)) } else { Some((Token::Assign, 1)) }
    } else if c == '<' as u8 {
        if eq_next { Some((Token::LessThanOrEquals, 2)) } else { Some((Token::LessThan, 1)) }
    } else if c == '>' as u8 {
        if eq_next { Some((Token::GreaterThanOrEquals, 2)) } else { Some((Token::GreaterThan, 1)) }
    } else if c == '+' as u8 {
        Some((Token::Plus, 1))
    } else if c == '-' as u8 {
        Some((Token::Minus, 1))
    } else if c == '*' as u8 {
        Some((Token::Times, 1))
    } else if c == '/' as u8 {
        Some((Token::Division, 1))
    } else if c == '%' as u8 {
        Some((Token::Modulo, 1))
    } else if c == '(' as u8 {
        Some((Token::LParenthesis, 1))
    } else if c == ')' as u8 {
        Some((Token::RParenthesis, 1))
    } else if c == '{' as u8 {
        Some((Token::LCurlyBrace, 1))
    } else if c == '}' as u8 {
        Some((Token::RCurlyBrace, 1))
    } else if c == '[' as u8 {
        Some((Token::LSquareBracket, 1))
    } else if c == ']' as u8 {
        Some((Token::RSquareBracket, 1))
    } else if c == '.' as u8 {
        Some((Token::Period, 1))
    } else if c == ',' as u8 {
        Some((Token::Comma, 1))
    } else if c == ';' as u8 {
        Some((Token::Semicolon, 1))
    } else {
        None
    }
}

/// The lexeme at `i`, as `lex_at` describes it.
fn lex_at_exec(b: &[u8], i: usize) -> (r: Option<(Lexeme, usize)>)
    requires
        i < b@.len(),
    ensures
        match (r, lex_at(b@, i as int)) {
            (Some((l, n)), Some((sl, sn))) => l == sl && n == sn,
            (None, None) => true,
            _ => false,
        },
{
    let blanks = scan_run(b, i, Class::Blank);
    if blanks > 0 {
        return Some((Lexeme::Skip, blanks));
    }
    let letters = scan_run(b, i, Class::Letter);
    if letters > 0 {
        return match keyword_exec(b, i, letters) {
            Some(k) => Some((Lexeme::Fixed(k), letters)),
            None => Some((Lexeme::Identifier, letters)),
        };
    }
    let digits = scan_run(b, i, Class::Digit);
    if digits > 0 {
        return Some((Lexeme::NumberLiteral, digits));
    }
    match symbol_at_exec(b, i) {
        Some((k, n)) => Some((Lexeme::Fixed(k), n)),
        None => None,
    }
}

/// Splits `source` into tokens. On failure, the error is the byte offset of the first place where
/// no token rule matches.
pub fn lex(source: &str) -> (result: Result<Vec<Token>, usize>)
    ensures
        match result {
            Ok(tokens) => spec_lex(bytes_of(source@)) matches Ok(lexemes) && tokens_denote(tokens@, lexemes, bytes_of(source@)),
            Err(offset) => spec_lex(bytes_of(source@)) == Err::<Seq<(Lexeme, int, int)>, int>(offset as int),
        },
{
    let b = source.as_bytes();
    let mut tokens: Vec<Token> = Vec::new();
    let mut i: usize = 0;
    let ghost mut done: Seq<(Lexeme, int, int)> = seq![];
    proof {
        vstd::utf8::encode_utf8_valid_utf8(source@);
    }
    while i < b.len()
        invariant
            b@ == bytes_of(source@),
            vstd::utf8::valid_utf8(b@),
            i <= b@.len(),
            spec_lex(b@) == (match spec_lex_from(b@, i as int) {
                Err(k) => Err(k),
                Ok(r) => Ok(done + r),
            }),
            tokens_denote(tokens@, done, b@),
        decreases b@.len() - i,
    {
        let (lexeme, n) = match lex_at_exec(b, i) {
            None => return Err(i),
            Some(found) => found,
        };
        if n == 0 || n > b.len() - i {
            return Err(i);
        }
        let end = i + n;
        let ghost entry = (lexeme, i as int, end as int);
        let ghost before = tokens@;
        match lexeme {
            Lexeme::Skip => {},
            Lexeme::Fixed(t) => {
                tokens.push(t);
            },
            Lexeme::Identifier => {
                proof { lemma_lexeme_boundaries(b@, i as int, n as int, Class::Letter); }
                tokens.push(Token::Identifier(TokenData { value: substring(source, i, end) }));
            },
            Lexeme::NumberLiteral => {
                proof { lemma_lexeme_boundaries(b@, i as int, n as int, Class::Digit); }
                tokens.push(Token::NumberLiteral(TokenData { value: substring(source, i, end) }));
            },
        }
        proof {
            if !(entry.0 is Skip) {
                assert(tokens@ == before.push(tokens@.last()));
                let old_done = done;
                done = done.push(entry);
                assert forall|k: int| 0 <= k < tokens@.len() implies token_denotes(#[trigger] tokens@[k], done[k].0, b@, done[k].1, done[k].2) by {
                    if k < before.len() {
                        assert(tokens@[k] == before[k]);
                        assert(done[k] == old_done[k]);
                    }
                }
                if let Ok(r) = spec_lex_from(b@, end as int) {
                    assert(old_done + (seq![entry] + r) =~= done + r);
                }
            }
        }
        i = end;
    }
    proof {
        assert(done + seq![] =~= done);
    }
    Ok(tokens)
}


/// The text that spells a keyword, operator or punctuation token (empty for an identifier or a
/// number).
pub open spec fn spelling(t: Token) -> Seq<u8> {
    match t {
        Token::If => seq!['i' as u8, 'f' as u8],
        Token::Else => seq!['e' as u8, 'l' as u8, 's' as u8, 'e' as u8],
        Token::While => seq!['w' as u8, 'h' as u8, 'i' as u8, 'l' as u8, 'e' as u8],
        Token::For => seq!['f' as u8, 'o' as u8, 'r' as u8],
        Token::Let => seq!['l' as u8, 'e' as u8, 't' as u8],
        Token::Function => seq!['f' as u8, 'u' as u8, 'n' as u8, 'c' as u8, 't' as u8, 'i' as u8, 'o' as u8, 'n' as u8],
        Token::Return => seq!['r' as u8, 'e' as u8, 't' as u8, 'u' as u8, 'r' as u8, 'n' as u8],
        Token::Plus => seq!['+' as u8],
        Token::Minus => seq!['-' as u8],
        Token::Times => seq!['*' as u8],
        Token::Division => seq!['/' as u8],
        Token::Modulo => seq!['%' as u8],
        Token::LParenthesis => seq!['(' as u8],
        Token::RParenthesis => seq![')' as u8],
        Token::LCurlyBrace => seq!['{' as u8],
        Token::RCurlyBrace => seq!['}' as u8],
        Token::LSquareBracket => seq!['[' as u8],
        Token::RSquareBracket => seq![']' as u8],
        Token::Period => seq!['.' as u8],
        Token::Comma => seq![',' as u8],
        Token::Semicolon => seq![';' as u8],
        Token::LessThan => seq!['<' as u8],
        Token::GreaterThan => seq!['>' as u8],
        Token::Equals => seq!['=' as u8, '=' as u8],
        Token::LessThanOrEquals => seq!['<' as u8, '=' as u8],
        Token::GreaterThanOrEquals => seq!['>' as u8, '=' as u8],
        Token::Assign => seq!['=' as u8],
        _ => seq![],
    }
}

/// A keyword, operator or punctuation lexeme found at `i` is spelled by the bytes it covers.
pub proof fn law_fixed_lexeme_spells_its_text(b: Seq<u8>, i: int)
    ensures
        lex_at(b, i) matches Some((Lexeme::Fixed(t), n)) ==> 0 <= i && i + n <= b.len() && b.subrange(i, i + n) == spelling(t),
{
    if let Some((Lexeme::Fixed(t), n)) = lex_at(b, i) {
        let letters = run_len(b, i, Class::Letter);
        if run_len(b, i, Class::Blank) == 0 && letters > 0 {
            lemma_letters_in_bounds(b, i);
            let w = b.subrange(i, i + letters);
            assert(w =~= spelling(t));
        } else {
            assert(0 <= i < b.len());
            assert(b.subrange(i, i + n) =~= spelling(t));
        }
    }
}

proof fn lemma_letters_in_bounds(b: Seq<u8>, i: int)
    ensures
        run_len(b, i, Class::Letter) > 0 ==> 0 <= i && i + run_len(b, i, Class::Letter) <= b.len(),
    decreases b.len() - i,
{
    if 0 <= i < b.len() && in_class(Class::Letter, b[i]) {
        lemma_letters_in_bounds(b, i + 1);
    }
}

proof fn lemma_lex_from_spelled(b: Seq<u8>, i: int)
    requires
        0 <= i,
    ensures
        spec_lex_from(b, i) matches Ok(ls) ==> forall|k: int| 0 <= k < ls.len() ==>
            ((#[trigger] ls[k]).0 matches Lexeme::Fixed(t) ==> b.subrange(ls[k].1, ls[k].2) == spelling(t)),
    decreases b.len() - i,
{
    if i < b.len() {
        if let Some((l, n)) = lex_at(b, i) {
            if n > 0 && i + n <= b.len() {
                lemma_lex_from_spelled(b, i + n);
                law_fixed_lexeme_spells_its_text(b, i);
                if let Ok(rest) = spec_lex_from(b, i + n) {
                    if !(l is Skip) {
                        let all = seq![(l, i, i + n)] + rest;
                        assert forall|k: int| 0 <= k < all.len() implies
                            ((#[trigger] all[k]).0 matches Lexeme::Fixed(t) ==> b.subrange(all[k].1, all[k].2) == spelling(t)) by {
                            if k > 0 {
                                assert(all[k] == rest[k - 1]);
                            }
                        }
                    }
                }
            }
        }
    }
}

/// Every keyword, operator and punctuation token that lexing finds is spelled by the bytes it
/// covers: the token says which text it was read from.
pub proof fn law_fixed_tokens_spell_their_text(b: Seq<u8>)
    ensures
        spec_lex(b) matches Ok(ls) ==> forall|k: int| 0 <= k < ls.len() ==>
            ((#[trigger] ls[k]).0 matches Lexeme::Fixed(t) ==> b.subrange(ls[k].1, ls[k].2) == spelling(t)),
{
    lemma_lex_from_spelled(b, 0);
}

} // verus!
