//! Tokens: the lexical categories, source positions and classified lexemes.

use vstd::prelude::*;
use vstd::string::*;

verus! {

/// Where a lexeme lies in the source: byte offsets `start..end` and the
/// 1-based number of the line on which it starts.
#[derive(Debug, PartialEq, Eq, Clone, Copy)]
pub struct Position {
    pub start: usize,
    pub end: usize,
    pub line: usize,
}

impl Position {
    pub fn new(start: usize, end: usize, line: usize) -> (position: Self)
        ensures
            position == (Position { start, end, line }),
    {
        Position { start, end, line }
    }
}

/// The reserved words. `For` and `While` are reserved without a production.
#[derive(Debug, PartialEq, Eq, Clone, Copy, Structural)]
pub enum Keyword {
    Let,
    Def,
    Return,
    End,
    For,
    While,
}

/// The reserved word that a lexeme spells, if it spells one.
pub open spec fn keyword_of(lexeme: Seq<u8>) -> Option<Keyword> {
    if lexeme == seq!['l' as u8, 'e' as u8, 't' as u8] {
        Some(Keyword::Let)
    } else if lexeme == seq!['d' as u8, 'e' as u8, 'f' as u8] {
        Some(Keyword::Def)
    } else if lexeme == seq!['r' as u8, 'e' as u8, 't' as u8, 'u' as u8, 'r' as u8, 'n' as u8] {
        Some(Keyword::Return)
    } else if lexeme == seq!['e' as u8, 'n' as u8, 'd' as u8] {
        Some(Keyword::End)
    } else if lexeme == seq!['f' as u8, 'o' as u8, 'r' as u8] {
        Some(Keyword::For)
    } else if lexeme == seq!['w' as u8, 'h' as u8, 'i' as u8, 'l' as u8, 'e' as u8] {
        Some(Keyword::While)
    } else {
        None
    }
}

/// The category of a word: the keyword it spells, or else an identifier.
pub open spec fn word_kind(lexeme: Seq<u8>) -> TokenType {
    match keyword_of(lexeme) {
        Some(keyword) => TokenType::Keyword(keyword),
        None => TokenType::Identifier,
    }
}

impl Keyword {
    /// Looks a lexeme up in the table of reserved words.
    pub fn lookup(lexeme: &[u8]) -> (keyword: Option<Keyword>)
        ensures
            keyword == keyword_of(lexeme@),
    {
        let length = lexeme.len();
        if length == 3 {
            let (first, second, third) = (lexeme[0], lexeme[1], lexeme[2]);
            proof {
                assert(lexeme@ =~= seq![first, second, third]);
            }
            if first == 'l' as u8 && second == 'e' as u8 && third == 't' as u8 {
                Some(Keyword::Let)
            } else if first == 'd' as u8 && second == 'e' as u8 && third == 'f' as u8 {
                Some(Keyword::Def)
            } else if first == 'e' as u8 && second == 'n' as u8 && third == 'd' as u8 {
                Some(Keyword::End)
            } else if first == 'f' as u8 && second == 'o' as u8 && third == 'r' as u8 {
                Some(Keyword::For)
            } else {
                None
            }
        } else if length == 5 {
            proof {
                assert(lexeme@ =~= seq![lexeme[0], lexeme[1], lexeme[2], lexeme[3], lexeme[4]]);
            }
            if lexeme[0] == 'w' as u8 && lexeme[1] == 'h' as u8 && lexeme[2] == 'i' as u8
                && lexeme[3] == 'l' as u8 && lexeme[4] == 'e' as u8 {
                Some(Keyword::While)
            } else {
                None
            }
        } else if length == 6 {
            proof {
                assert(lexeme@ =~= seq![
                    lexeme[0],
                    lexeme[1],
                    lexeme[2],
                    lexeme[3],
                    lexeme[4],
                    lexeme[5],
                ]);
            }
            if lexeme[0] == 'r' as u8 && lexeme[1] == 'e' as u8 && lexeme[2] == 't' as u8
                && lexeme[3] == 'u' as u8 && lexeme[4] == 'r' as u8 && lexeme[5] == 'n' as u8 {
                Some(Keyword::Return)
            } else {
                None
            }
        } else {
            None
        }
    }
}

impl core::str::FromStr for Keyword {
    type Err = ();

    fn from_str(source: &str) -> (result: Result<Keyword, ()>)
        ensures
            result == (match keyword_of(source.spec_bytes()) {
                Some(keyword) => Ok::<Keyword, ()>(keyword),
                None => Err(()),
            }),
    {
        match Keyword::lookup(source.as_bytes()) {
            Some(keyword) => Ok(keyword),
            None => Err(()),
        }
    }
}

/// The closed set of lexical categories.
#[derive(Debug, PartialEq, Eq, Clone, Copy, Structural)]
pub enum TokenType {
    // Punctuation
    LeftParen,
    RightParen,
    LeftBrace,
    RightBrace,
    LeftBracket,
    RightBracket,
    Comma,
    Dot,
    // Operators
    Minus,
    Plus,
    Star,
    Slash,
    Bang,
    BangEqual,
    Equal,
    EqualEqual,
    LessThan,
    LessThanEqual,
    GreaterThan,
    GreaterThanEqual,
    /// The statement terminator: one per line break.
    Line,
    // Literals
    String,
    Number,
    Keyword(Keyword),
    Identifier,
    /// The sentinel that closes every token sequence.
    EOF,
}

/// A classified lexeme with its position. `source` is the exact slice of the
/// source text that the token was scanned from.
#[derive(Debug, PartialEq, Clone, Copy)]
pub struct Token<'a> {
    pub token_type: TokenType,
    pub source: &'a str,
    pub position: Position,
}

/// The mathematical value of a token: its category, the characters of its
/// lexeme, and its position.
pub struct TokenSpec {
    pub kind: TokenType,
    pub lexeme: Seq<char>,
    pub position: Position,
}

impl<'a> View for Token<'a> {
    type V = TokenSpec;

    open spec fn view(&self) -> TokenSpec {
        TokenSpec { kind: self.token_type, lexeme: self.source@, position: self.position }
    }
}

impl<'a> Token<'a> {
    pub fn new(token_type: TokenType, source: &'a str, position: Position) -> (token: Self)
        ensures
            token.token_type == token_type,
            token.source == source,
            token.position == position,
    {
        Token { token_type, source, position }
    }
}

/// The views of a run of tokens, in order.
pub open spec fn token_views(tokens: Seq<Token<'_>>) -> Seq<TokenSpec> {
    tokens.map_values(|token: Token<'_>| token@)
}

} // verus!
