//! The lexer: one pass over the bytes of the source, one byte of lookahead,
//! and a second only to tell the point of a fraction from a lone point.

use vstd::prelude::*;
use vstd::slice::*;
use vstd::string::*;
use vstd::utf8::*;
pub use crate::syntax::error::SyntaxError;
use crate::syntax::lexical::{
    class_width, compound_symbol, find_byte, is_delimiter, is_digit, is_quote,
    lemma_blank_run_boundary, lemma_boundary_after_ascii, lemma_boundary_in_prefix,
    lemma_next_token_bounds, lemma_run_end, lemma_token_at_bounds, lemma_token_boundaries,
    line_number, next_token, number_end, run_end, single_symbol, token_at, token_value, tokens_from,
    tokens_of, CharClass, Scanned,
};
use crate::syntax::lexer_proofs::{
    ends_with_single_sentinel, lemma_numbers_are_numerals, lemma_tokens_end_with_single_sentinel,
    lemma_tokens_fail_only_on_open_string, lemma_tokens_lie_in_order, lie_in_order,
    numbers_are_numerals,
};
use crate::syntax::token::{token_views, Keyword, Position, Token, TokenSpec, TokenType};

verus! {

fn byte_is_digit(byte: u8) -> (result: bool)
    ensures
        result == is_digit(byte),
{
    '0' as u8 <= byte && byte <= '9' as u8
}

fn single_symbol_of(byte: u8) -> (result: Option<TokenType>)
    ensures
        result == single_symbol(byte),
{
    if byte == '(' as u8 {
        Some(TokenType::LeftParen)
    } else if byte == ')' as u8 {
        Some(TokenType::RightParen)
    } else if byte == '{' as u8 {
        Some(TokenType::LeftBrace)
    } else if byte == '}' as u8 {
        Some(TokenType::RightBrace)
    } else if byte == '[' as u8 {
        Some(TokenType::LeftBracket)
    } else if byte == ']' as u8 {
        Some(TokenType::RightBracket)
    } else if byte == ',' as u8 {
        Some(TokenType::Comma)
    } else if byte == '.' as u8 {
        Some(TokenType::Dot)
    } else if byte == '-' as u8 {
        Some(TokenType::Minus)
    } else if byte == '+' as u8 {
        Some(TokenType::Plus)
    } else if byte == '*' as u8 {
        Some(TokenType::Star)
    } else if byte == '/' as u8 {
        Some(TokenType::Slash)
    } else {
        None
    }
}

fn compound_symbol_of(byte: u8) -> (result: Option<(TokenType, TokenType)>)
    ensures
        result == compound_symbol(byte),
{
    if byte == '!' as u8 {
        Some((TokenType::Bang, TokenType::BangEqual))
    } else if byte == '=' as u8 {
        Some((TokenType::Equal, TokenType::EqualEqual))
    } else if byte == '<' as u8 {
        Some((TokenType::LessThan, TokenType::LessThanEqual))
    } else if byte == '>' as u8 {
        Some((TokenType::GreaterThan, TokenType::GreaterThanEqual))
    } else {
        None
    }
}

fn byte_is_delimiter(byte: u8) -> (result: bool)
    ensures
        result == is_delimiter(byte),
{
    byte_is_digit(byte) || byte == '\n' as u8 || byte == '"' as u8 || byte == '\'' as u8
        || single_symbol_of(byte).is_some() || compound_symbol_of(byte).is_some()
}

/// The lexer's state: the source, its bytes, the cursor into them, and the
/// number of the line that the cursor stands on.
pub struct Lexer<'a> {
    source: &'a str,
    bytes: &'a [u8],
    cursor: usize,
    line: usize,
}

impl<'a> Lexer<'a> {
    spec fn well_formed(&self) -> bool {
        &&& self.bytes@ == self.source.spec_bytes()
        &&& self.cursor <= self.bytes@.len()
        &&& self.line == line_number(self.bytes@, self.cursor as int)
    }

    /// The cursor has moved, and nothing else has changed.
    spec fn moved_from(&self, before: &Self) -> bool {
        &&& self.well_formed()
        &&& self.source == before.source
        &&& self.bytes == before.bytes
    }

    spec fn at_boundary(&self) -> bool {
        is_char_boundary(self.bytes@, self.cursor as int)
    }

    fn new(source: &'a str) -> (lexer: Self)
        ensures
            lexer.well_formed(),
            lexer.source == source,
            lexer.cursor == 0,
    {
        Lexer { source, bytes: source.as_bytes(), cursor: 0, line: 1 }
    }

    fn is_at_end(&self) -> (result: bool)
        requires
            self.well_formed(),
        ensures
            result == (self.cursor == self.bytes@.len()),
    {
        self.peek().is_none()
    }

    fn peek(&self) -> (result: Option<u8>)
        requires
            self.well_formed(),
        ensures
            result == (if self.cursor < self.bytes@.len() {
                Some(self.bytes@[self.cursor as int])
            } else {
                None
            }),
    {
        if self.cursor < self.bytes.len() {
            Some(self.bytes[self.cursor])
        } else {
            None
        }
    }

    fn peek_next(&self) -> (result: Option<u8>)
        requires
            self.well_formed(),
        ensures
            result == (if self.cursor + 1 < self.bytes@.len() {
                Some(self.bytes@[self.cursor + 1])
            } else {
                None
            }),
    {
        if self.cursor < self.bytes.len() && self.cursor + 1 < self.bytes.len() {
            Some(self.bytes[self.cursor + 1])
        } else {
            None
        }
    }

    /// Consumes one byte and hands it out with its offset; a line break
    /// advances the line count.
    fn advance(&mut self) -> (result: Option<(usize, u8)>)
        requires
            old(self).well_formed(),
        ensures
            final(self).moved_from(old(self)),
            old(self).cursor < old(self).bytes@.len() ==> result == Some(
                (old(self).cursor, old(self).bytes@[old(self).cursor as int]),
            ) && final(self).cursor == old(self).cursor + 1,
            old(self).cursor == old(self).bytes@.len() ==> result is None && final(self).cursor
                == old(self).cursor,
    {
        if self.cursor < self.bytes.len() {
            let offset = self.cursor;
            let byte = self.bytes[offset];
            if byte == '\n' as u8 && self.line < usize::MAX {
                self.line += 1;
            }
            self.cursor += 1;
            Some((offset, byte))
        } else {
            None
        }
    }

    /// The width of the run of `class` at the cursor: 0 where the run ends.
    fn class_width_here(&self, class: CharClass) -> (width: usize)
        requires
            self.well_formed(),
        ensures
            width == class_width(self.bytes@, self.cursor as int, class),
            self.cursor + width <= self.bytes@.len(),
    {
        let length = self.bytes.len();
        if self.cursor >= length {
            return 0;
        }
        let left = length - self.cursor;
        let first = self.bytes[self.cursor];
        let blank: usize = if first == 0x09 || first == 0x0B || first == 0x0C || first == 0x0D
            || first == 0x20 {
            1
        } else if left > 1 && first == 0xC2 {
            let second = self.bytes[self.cursor + 1];
            if second == 0x85 || second == 0xA0 {
                2
            } else {
                0
            }
        } else if left > 2 && (first == 0xE1 || first == 0xE2 || first == 0xE3) {
            let second = self.bytes[self.cursor + 1];
            let third = self.bytes[self.cursor + 2];
            if first == 0xE1 && second == 0x9A && third == 0x80 {
                3
            } else if first == 0xE2 && second == 0x80 && ((0x80 <= third && third <= 0x8A)
                || third == 0xA8 || third == 0xA9 || third == 0xAF) {
                3
            } else if first == 0xE2 && second == 0x81 && third == 0x9F {
                3
            } else if first == 0xE3 && second == 0x80 && third == 0x80 {
                3
            } else {
                0
            }
        } else {
            0
        };
        match class {
            CharClass::Blank => blank,
            CharClass::Digit => if byte_is_digit(first) {
                1
            } else {
                0
            },
            CharClass::Word => if blank == 0 && !byte_is_delimiter(first) {
                1
            } else {
                0
            },
        }
    }

    /// Consumes the longest run of `class` at the cursor, and returns the
    /// number of bytes in it.
    fn advance_while(&mut self, class: CharClass) -> (count: usize)
        requires
            old(self).well_formed(),
        ensures
            final(self).moved_from(old(self)),
            final(self).cursor == run_end(old(self).bytes@, old(self).cursor as int, class),
            count == final(self).cursor - old(self).cursor,
    {
        let start = self.cursor;
        loop
            invariant
                self.moved_from(old(self)),
                start == old(self).cursor,
                start <= self.cursor,
                run_end(self.bytes@, self.cursor as int, class) == run_end(
                    self.bytes@,
                    start as int,
                    class,
                ),
            ensures
                self.cursor == run_end(self.bytes@, start as int, class),
            decreases self.bytes@.len() - self.cursor,
        {
            let width = self.class_width_here(class);
            if width == 0 {
                break ;
            }
            let ghost run_start = self.cursor;
            let mut taken: usize = 0;
            while taken < width
                invariant
                    self.moved_from(old(self)),
                    taken <= width,
                    self.cursor == run_start + taken,
                    run_start + width <= self.bytes@.len(),
                decreases width - taken,
            {
                self.advance();
                taken += 1;
            }
        }
        self.cursor - start
    }

    fn skip_whitespace(&mut self)
        requires
            old(self).well_formed(),
        ensures
            final(self).moved_from(old(self)),
            final(self).cursor == run_end(
                old(self).bytes@,
                old(self).cursor as int,
                CharClass::Blank,
            ),
    {
        self.advance_while(CharClass::Blank);
    }

    /// The slice of the source from `start` to the cursor.
    fn token_contents(&self, start: usize) -> (lexeme: &'a str)
        requires
            self.well_formed(),
            start <= self.cursor,
            is_char_boundary(self.bytes@, start as int),
            self.at_boundary(),
        ensures
            lexeme.spec_bytes() == self.bytes@.subrange(start as int, self.cursor as int),
            lexeme@ == decode_utf8(self.bytes@.subrange(start as int, self.cursor as int)),
    {
        proof {
            encode_utf8_valid_utf8(self.source@);
            lemma_boundary_in_prefix(self.bytes@, start as int, self.cursor as int);
        }
        let (head, _) = self.source.split_at(self.cursor);
        let (_, lexeme) = head.split_at(start);
        proof {
            assert(lexeme.spec_bytes() =~= self.bytes@.subrange(start as int, self.cursor as int));
            encode_utf8_decode_utf8(lexeme@);
        }
        lexeme
    }

    /// The token of category `token_type` that lies between `start`, on line
    /// `line`, and the cursor.
    fn make_token(&self, token_type: TokenType, start: usize, line: usize) -> (token: Token<'a>)
        requires
            self.well_formed(),
            start <= self.cursor,
            is_char_boundary(self.bytes@, start as int),
            self.at_boundary(),
            line == line_number(self.bytes@, start as int),
        ensures
            token@ == token_value(
                self.bytes@,
                Scanned { kind: token_type, start: start as int, end: self.cursor as int },
            ),
            token.source.spec_bytes() == self.bytes@.subrange(start as int, self.cursor as int),
    {
        let source = self.token_contents(start);
        Token::new(token_type, source, Position::new(start, self.cursor, line))
    }

    /// The sentinel, once the input is used up.
    fn eof(&self) -> (token: Token<'a>)
        requires
            self.well_formed(),
            self.cursor == self.bytes@.len(),
        ensures
            token@ == token_value(
                self.bytes@,
                Scanned {
                    kind: TokenType::EOF,
                    start: self.bytes@.len() as int,
                    end: self.bytes@.len() as int,
                },
            ),
            token.source.spec_bytes() == Seq::<u8>::empty(),
    {
        proof {
            encode_utf8_valid_utf8(self.source@);
            is_char_boundary_start_end_of_seq(self.bytes@);
            assert(self.bytes@.subrange(self.cursor as int, self.cursor as int) =~= Seq::<
                u8,
            >::empty());
        }
        self.make_token(TokenType::EOF, self.source.len(), self.line)
    }

    /// Scans the numeral whose first digit, at `start`, has been consumed.
    fn number(&mut self, start: usize, line: usize) -> (token: Token<'a>)
        requires
            old(self).well_formed(),
            old(self).cursor == start + 1,
            is_digit(old(self).bytes@[start as int]),
            is_char_boundary(old(self).bytes@, start as int),
            is_char_boundary(old(self).bytes@, number_end(old(self).bytes@, start as int)),
            line == line_number(old(self).bytes@, start as int),
        ensures
            final(self).moved_from(old(self)),
            final(self).cursor == number_end(old(self).bytes@, start as int),
            token@ == token_value(
                old(self).bytes@,
                Scanned {
                    kind: TokenType::Number,
                    start: start as int,
                    end: number_end(old(self).bytes@, start as int),
                },
            ),
            token.source.spec_bytes() == old(self).bytes@.subrange(
                start as int,
                number_end(old(self).bytes@, start as int),
            ),
    {
        self.advance_while(CharClass::Digit);
        proof {
            lemma_run_end(self.bytes@, start as int + 1, CharClass::Digit);
        }
        // Look for a fractional part.
        if let Some(peek) = self.peek() {
            if peek == '.' as u8 {
                if let Some(next) = self.peek_next() {
                    if byte_is_digit(next) {
                        // Consume the point.
                        self.advance();
                        self.advance_while(CharClass::Digit);
                        proof {
                            lemma_run_end(self.bytes@, self.cursor as int, CharClass::Digit);
                        }
                    }
                }
            }
        }
        self.make_token(TokenType::Number, start, line)
    }

    /// Scans the string literal whose opening quote, at `start`, has been
    /// consumed, up to and with the next quote of the same kind.
    fn string(&mut self, start: usize, line: usize) -> (result: Result<Token<'a>, SyntaxError>)
        requires
            old(self).well_formed(),
            old(self).cursor == start + 1,
            is_quote(old(self).bytes@[start as int]),
            is_char_boundary(old(self).bytes@, start as int),
            line == line_number(old(self).bytes@, start as int),
        ensures
            final(self).moved_from(old(self)),
            match token_at(old(self).bytes@, start as int) {
                Ok(scanned) => result matches Ok(token) && token@ == token_value(
                    old(self).bytes@,
                    scanned,
                ) && token.source.spec_bytes() == old(self).bytes@.subrange(
                    scanned.start,
                    scanned.end,
                ) && final(self).cursor == scanned.end,
                Err(error) => result == Err::<Token<'a>, SyntaxError>(error),
            },
    {
        let quote = self.bytes[start];
        loop
            invariant
                self.moved_from(old(self)),
                start < self.cursor,
                quote == self.bytes@[start as int],
                is_quote(quote),
                is_char_boundary(self.bytes@, start as int),
                line == line_number(self.bytes@, start as int),
                find_byte(self.bytes@, self.cursor as int, quote) == find_byte(
                    self.bytes@,
                    start + 1,
                    quote,
                ),
            decreases self.bytes@.len() - self.cursor,
        {
            match self.advance() {
                None => {
                    return Err(SyntaxError::UnterminatedString);
                },
                Some((_, byte)) => {
                    if byte == quote {
                        proof {
                            encode_utf8_valid_utf8(self.source@);
                            lemma_boundary_after_ascii(self.bytes@, self.cursor - 1);
                        }
                        return Ok(self.make_token(TokenType::String, start, line));
                    }
                },
            }
        }
    }

    /// Reads the next token: skips blanks, then classifies by the first byte.
    fn read_token(&mut self) -> (result: Result<Token<'a>, SyntaxError>)
        requires
            old(self).well_formed(),
            old(self).at_boundary(),
        ensures
            final(self).moved_from(old(self)),
            match next_token(old(self).bytes@, old(self).cursor as int) {
                Ok(scanned) => result matches Ok(token) && token@ == token_value(
                    old(self).bytes@,
                    scanned,
                ) && token.source.spec_bytes() == old(self).bytes@.subrange(
                    scanned.start,
                    scanned.end,
                ) && final(self).cursor == scanned.end && final(self).at_boundary(),
                Err(error) => result == Err::<Token<'a>, SyntaxError>(error),
            },
    {
        proof {
            encode_utf8_valid_utf8(self.source@);
            lemma_token_boundaries(self.bytes@, self.cursor as int);
            lemma_blank_run_boundary(self.bytes@, self.cursor as int);
            lemma_next_token_bounds(self.bytes@, self.cursor as int);
            lemma_run_end(self.bytes@, self.cursor as int, CharClass::Blank);
        }
        self.skip_whitespace();
        if self.is_at_end() {
            return Ok(self.eof());
        }
        let line = self.line;
        let (start, first) = match self.advance() {
            Some(consumed) => consumed,
            None => {
                return Err(SyntaxError::UnexpectedEOF);
            },
        };
        proof {
            lemma_token_at_bounds(self.bytes@, start as int);
        }
        if byte_is_digit(first) {
            return Ok(self.number(start, line));
        }
        if first == '"' as u8 || first == '\'' as u8 {
            return self.string(start, line);
        }
        let token_type = if first == '\n' as u8 {
            TokenType::Line
        } else if let Some(kind) = single_symbol_of(first) {
            kind
        } else if let Some((alone, with_equal)) = compound_symbol_of(first) {
            if self.peek() == Some('=' as u8) {
                self.advance();
                with_equal
            } else {
                alone
            }
        } else {
            self.advance_while(CharClass::Word);
            let lexeme = self.token_contents(start);
            match Keyword::lookup(lexeme.as_bytes()) {
                Some(keyword) => TokenType::Keyword(keyword),
                None => TokenType::Identifier,
            }
        };
        Ok(self.make_token(token_type, start, line))
    }

    /// Turns a source text into its tokens, the sentinel last.
    pub fn tokenize(source: &'a str) -> (result: Result<Vec<Token<'a>>, SyntaxError>)
        ensures
            match result {
                Ok(tokens) => tokens_of(source.spec_bytes()) == Ok::<Seq<TokenSpec>, SyntaxError>(
                    token_views(tokens@),
                ),
                Err(error) => tokens_of(source.spec_bytes()) == Err::<Seq<TokenSpec>, SyntaxError>(
                    error,
                ),
            },
            result matches Ok(tokens) ==> ends_with_single_sentinel(token_views(tokens@)),
            result matches Ok(tokens) ==> numbers_are_numerals(token_views(tokens@)),
            result matches Ok(tokens) ==> lie_in_order(source.spec_bytes(), token_views(tokens@)),
            result matches Err(error) ==> error == SyntaxError::UnterminatedString,
    {
        let mut lexer = Lexer::new(source);
        let mut tokens: Vec<Token<'a>> = Vec::new();
        proof {
            assert(lexer.bytes@.len() == lexer.bytes.len());
            encode_utf8_valid_utf8(source@);
            is_char_boundary_start_end_of_seq(lexer.bytes@);
            assert(token_views(tokens@) =~= Seq::<TokenSpec>::empty());
        }
        loop
            invariant
                lexer.well_formed(),
                lexer.at_boundary(),
                lexer.bytes@ == source.spec_bytes(),
                lexer.bytes@.len() <= usize::MAX,
                tokens_from(lexer.bytes@, lexer.cursor as int, token_views(tokens@)) == tokens_of(
                    lexer.bytes@,
                ),
            decreases lexer.bytes@.len() - lexer.cursor,
        {
            proof {
                lemma_next_token_bounds(lexer.bytes@, lexer.cursor as int);
                lemma_tokens_end_with_single_sentinel(lexer.bytes@);
                lemma_numbers_are_numerals(lexer.bytes@);
                lemma_tokens_lie_in_order(lexer.bytes@);
                lemma_tokens_fail_only_on_open_string(lexer.bytes@);
            }
            let ghost before = token_views(tokens@);
            match lexer.read_token() {
                Err(error) => {
                    return Err(error);
                },
                Ok(token) => {
                    let last = token.token_type == TokenType::EOF;
                    tokens.push(token);
                    proof {
                        assert(token_views(tokens@) =~= before.push(token@));
                    }
                    if last {
                        return Ok(tokens);
                    }
                },
            }
        }
    }
}

} // verus!
