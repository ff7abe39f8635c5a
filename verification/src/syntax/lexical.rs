//! The lexical grammar, stated over the UTF-8 bytes of a source text.
//!
//! Every delimiter of the language is an ASCII character, so the grammar can
//! be read off the bytes directly: a byte below `0x80` is the character with
//! that code, and the bytes of a longer encoding never look like one.

use vstd::prelude::*;
use vstd::utf8::*;
use crate::syntax::error::SyntaxError;
use crate::syntax::token::{word_kind, Position, TokenSpec, TokenType};

verus! {

/// An ASCII decimal digit.
pub open spec fn is_digit(byte: u8) -> bool {
    '0' as u8 <= byte <= '9' as u8
}

/// The line break, which is a token of its own and advances the line count.
pub open spec fn is_newline(byte: u8) -> bool {
    byte == '\n' as u8
}

/// A quote opens a string literal, which runs to the next quote of the same kind.
pub open spec fn is_quote(byte: u8) -> bool {
    byte == '"' as u8 || byte == '\'' as u8
}

/// The tokens that are one fixed character.
pub open spec fn single_symbol(byte: u8) -> Option<TokenType> {
    if byte == '(' as u8 {
        Some(TokenType::LeftParen)
    } else if byte == ')' as u8 {
        Some(TokenType::RightParen)
    } else if byte == '{' as u8 {
        Some(TokenType::LeftBrace)
    } else if byte == '}' as u8 {
        Some(TokenType::RightBrace)
    } else if byte == '[' as u8 {
        Some(TokenType::LeftBracket)
    } else if byte == ']' as u8 {
        Some(TokenType::RightBracket)
    } else if byte == ',' as u8 {
        Some(TokenType::Comma)
    } else if byte == '.' as u8 {
        Some(TokenType::Dot)
    } else if byte == '-' as u8 {
        Some(TokenType::Minus)
    } else if byte == '+' as u8 {
        Some(TokenType::Plus)
    } else if byte == '*' as u8 {
        Some(TokenType::Star)
    } else if byte == '/' as u8 {
        Some(TokenType::Slash)
    } else {
        None
    }
}

/// The operators that an `=` directly behind them extends: the token for the
/// character alone, and the token for the character followed by `=`.
pub open spec fn compound_symbol(byte: u8) -> Option<(TokenType, TokenType)> {
    if byte == '!' as u8 {
        Some((TokenType::Bang, TokenType::BangEqual))
    } else if byte == '=' as u8 {
        Some((TokenType::Equal, TokenType::EqualEqual))
    } else if byte == '<' as u8 {
        Some((TokenType::LessThan, TokenType::LessThanEqual))
    } else if byte == '>' as u8 {
        Some((TokenType::GreaterThan, TokenType::GreaterThanEqual))
    } else {
        None
    }
}

/// The number of bytes of the blank character that starts at `at`, or 0 where
/// none starts there. The blank characters are those with the Unicode property
/// `White_Space`, but for the line break: U+0009, U+000B to U+000D, U+0020,
/// U+0085, U+00A0, U+1680, U+2000 to U+200A, U+2028, U+2029, U+202F, U+205F
/// and U+3000, each matched by its UTF-8 encoding.
pub open spec fn blank_width(bytes: Seq<u8>, at: int) -> int {
    if !(0 <= at < bytes.len()) {
        0
    } else if bytes[at] == 0x09 || bytes[at] == 0x0B || bytes[at] == 0x0C || bytes[at] == 0x0D
        || bytes[at] == 0x20 {
        1
    } else if at + 1 < bytes.len() && bytes[at] == 0xC2 && (bytes[at + 1] == 0x85 || bytes[at + 1]
        == 0xA0) {
        2
    } else if at + 2 < bytes.len() && bytes[at] == 0xE1 && bytes[at + 1] == 0x9A && bytes[at + 2]
        == 0x80 {
        3
    } else if at + 2 < bytes.len() && bytes[at] == 0xE2 && bytes[at + 1] == 0x80 && (0x80
        <= bytes[at + 2] <= 0x8A || bytes[at + 2] == 0xA8 || bytes[at + 2] == 0xA9 || bytes[at + 2]
        == 0xAF) {
        3
    } else if at + 2 < bytes.len() && bytes[at] == 0xE2 && bytes[at + 1] == 0x81 && bytes[at + 2]
        == 0x9F {
        3
    } else if at + 2 < bytes.len() && bytes[at] == 0xE3 && bytes[at + 1] == 0x80 && bytes[at + 2]
        == 0x80 {
        3
    } else {
        0
    }
}

/// A byte that ends a word wherever it stands: a digit, the line break, a
/// quote, or a character of the punctuation and operator set.
pub open spec fn is_delimiter(byte: u8) -> bool {
    is_digit(byte) || is_newline(byte) || is_quote(byte) || single_symbol(byte) is Some
        || compound_symbol(byte) is Some
}

/// A byte of a word stands at `at`: one that is no delimiter and starts no
/// blank character. Words are what identifiers and keywords are made of.
pub open spec fn is_word_at(bytes: Seq<u8>, at: int) -> bool {
    0 <= at < bytes.len() && !is_delimiter(bytes[at]) && blank_width(bytes, at) == 0
}

/// The three kinds of run that the lexer scans greedily.
#[derive(Debug, PartialEq, Eq, Clone, Copy, Structural)]
pub enum CharClass {
    Blank,
    Digit,
    Word,
}

/// The number of bytes by which a run of `class` extends at `at`; 0 where it ends.
pub open spec fn class_width(bytes: Seq<u8>, at: int, class: CharClass) -> int {
    match class {
        CharClass::Blank => blank_width(bytes, at),
        CharClass::Digit => if 0 <= at < bytes.len() && is_digit(bytes[at]) {
            1
        } else {
            0
        },
        CharClass::Word => if is_word_at(bytes, at) {
            1
        } else {
            0
        },
    }
}

/// Where the longest run of `class` that starts at `at` ends.
pub open spec fn run_end(bytes: Seq<u8>, at: int, class: CharClass) -> int
    decreases bytes.len() - at,
{
    if 0 <= at < bytes.len() && class_width(bytes, at, class) > 0 {
        run_end(bytes, at + class_width(bytes, at, class), class)
    } else {
        at
    }
}

/// Where a numeral that starts at `start` ends: a run of digits, and then a
/// point and a second run of digits only where a digit follows the point.
pub open spec fn number_end(bytes: Seq<u8>, start: int) -> int {
    let whole = run_end(bytes, start, CharClass::Digit);
    if whole + 1 < bytes.len() && bytes[whole] == '.' as u8 && is_digit(bytes[whole + 1]) {
        run_end(bytes, whole + 1, CharClass::Digit)
    } else {
        whole
    }
}

/// The first offset from `from` on at which `target` stands, or the length of
/// `bytes` where it stands at none.
pub open spec fn find_byte(bytes: Seq<u8>, from: int, target: u8) -> int
    decreases bytes.len() - from,
{
    if 0 <= from < bytes.len() {
        if bytes[from] == target {
            from
        } else {
            find_byte(bytes, from + 1, target)
        }
    } else {
        bytes.len() as int
    }
}

/// A token as the grammar finds it: its category and the bytes `start..end`.
pub struct Scanned {
    pub kind: TokenType,
    pub start: int,
    pub end: int,
}

/// The token that starts at `start`, where a byte stands that starts no blank.
/// A string literal that no second quote closes is the one failure.
pub open spec fn token_at(bytes: Seq<u8>, start: int) -> Result<Scanned, SyntaxError>
    recommends
        0 <= start < bytes.len(),
{
    let first = bytes[start];
    if is_digit(first) {
        Ok(Scanned { kind: TokenType::Number, start, end: number_end(bytes, start) })
    } else if is_newline(first) {
        Ok(Scanned { kind: TokenType::Line, start, end: start + 1 })
    } else if is_quote(first) {
        let closing = find_byte(bytes, start + 1, first);
        if closing < bytes.len() {
            Ok(Scanned { kind: TokenType::String, start, end: closing + 1 })
        } else {
            Err(SyntaxError::UnterminatedString)
        }
    } else if let Some(kind) = single_symbol(first) {
        Ok(Scanned { kind, start, end: start + 1 })
    } else if let Some((alone, with_equal)) = compound_symbol(first) {
        if start + 1 < bytes.len() && bytes[start + 1] == '=' as u8 {
            Ok(Scanned { kind: with_equal, start, end: start + 2 })
        } else {
            Ok(Scanned { kind: alone, start, end: start + 1 })
        }
    } else {
        let end = run_end(bytes, start, CharClass::Word);
        Ok(Scanned { kind: word_kind(bytes.subrange(start, end)), start, end })
    }
}

/// The next token from the cursor `at` on: blanks are skipped, and where the
/// input is used up the sentinel stands, empty, at the final offset.
pub open spec fn next_token(bytes: Seq<u8>, at: int) -> Result<Scanned, SyntaxError> {
    let start = run_end(bytes, at, CharClass::Blank);
    if 0 <= start < bytes.len() {
        token_at(bytes, start)
    } else {
        Ok(Scanned { kind: TokenType::EOF, start: bytes.len() as int, end: bytes.len() as int })
    }
}

/// The number of line breaks among the first `offset` bytes.
pub open spec fn newlines_before(bytes: Seq<u8>, offset: int) -> nat
    decreases offset,
{
    if offset <= 0 || offset > bytes.len() {
        0
    } else {
        newlines_before(bytes, offset - 1) + if is_newline(bytes[offset - 1]) {
            1nat
        } else {
            0nat
        }
    }
}

/// The 1-based number of the line that the byte at `offset` stands on, held at
/// the largest `usize` where the count would pass it.
pub open spec fn line_number(bytes: Seq<u8>, offset: int) -> usize {
    if 1 + newlines_before(bytes, offset) > usize::MAX {
        usize::MAX
    } else {
        (1 + newlines_before(bytes, offset)) as usize
    }
}

/// The value of the token that the grammar found at `scanned`.
pub open spec fn token_value(bytes: Seq<u8>, scanned: Scanned) -> TokenSpec {
    TokenSpec {
        kind: scanned.kind,
        lexeme: decode_utf8(bytes.subrange(scanned.start, scanned.end)),
        position: Position {
            start: scanned.start as usize,
            end: scanned.end as usize,
            line: line_number(bytes, scanned.start),
        },
    }
}

/// A run ends inside the text, at or behind its start, where its class no
/// longer extends it.
pub proof fn lemma_run_end(bytes: Seq<u8>, at: int, class: CharClass)
    ensures
        0 <= at <= bytes.len() ==> at <= run_end(bytes, at, class) <= bytes.len(),
        !(0 <= at < bytes.len()) ==> run_end(bytes, at, class) == at,
        class_width(bytes, run_end(bytes, at, class), class) == 0,
    decreases bytes.len() - at,
{
    if 0 <= at < bytes.len() && class_width(bytes, at, class) > 0 {
        lemma_run_end(bytes, at + class_width(bytes, at, class), class);
    }
}

/// A token that starts on a byte that starts no blank is not empty, ends
/// inside the text, and is not the sentinel.
pub proof fn lemma_token_at_bounds(bytes: Seq<u8>, start: int)
    requires
        0 <= start < bytes.len(),
        blank_width(bytes, start) == 0,
    ensures
        token_at(bytes, start) matches Ok(token) ==> token.start == start && start < token.end
            <= bytes.len() && token.kind != TokenType::EOF,
{
    let first = bytes[start];
    if is_digit(first) {
        let whole = run_end(bytes, start, CharClass::Digit);
        lemma_run_end(bytes, start + 1, CharClass::Digit);
        lemma_run_end(bytes, whole + 1, CharClass::Digit);
    } else if is_newline(first) {
    } else if is_quote(first) {
        lemma_find_byte(bytes, start + 1, first);
    } else if single_symbol(first) is Some {
    } else if compound_symbol(first) is Some {
    } else {
        lemma_run_end(bytes, start + 1, CharClass::Word);
    }
}

/// The search for a byte ends at or behind its start, on the byte or at the
/// end of the text, and passes no occurrence of the byte.
pub proof fn lemma_find_byte(bytes: Seq<u8>, from: int, target: u8)
    requires
        0 <= from <= bytes.len(),
    ensures
        from <= find_byte(bytes, from, target) <= bytes.len(),
        find_byte(bytes, from, target) < bytes.len() ==> bytes[find_byte(bytes, from, target)]
            == target,
        forall|i: int| from <= i < find_byte(bytes, from, target) ==> bytes[i] != target,
    decreases bytes.len() - from,
{
    if from < bytes.len() && bytes[from] != target {
        lemma_find_byte(bytes, from + 1, target);
    }
}

/// Every token but the sentinel is not empty and lies inside the text behind
/// the cursor; the sentinel lies, empty, at the end of the text.
pub proof fn lemma_next_token_bounds(bytes: Seq<u8>, at: int)
    ensures
        next_token(bytes, at) matches Ok(token) ==> {
            &&& token.kind != TokenType::EOF ==> 0 <= at <= token.start < token.end <= bytes.len()
            &&& token.kind == TokenType::EOF ==> token.start == token.end == bytes.len()
            &&& token.start == (if 0 <= at <= bytes.len() {
                run_end(bytes, at, CharClass::Blank)
            } else {
                bytes.len() as int
            })
        },
{
    lemma_run_end(bytes, at, CharClass::Blank);
    let start = run_end(bytes, at, CharClass::Blank);
    if 0 <= start < bytes.len() {
        lemma_token_at_bounds(bytes, start);
    }
}

/// The number of bytes of a character, read off the first byte of its encoding.
pub open spec fn leading_width(byte: u8) -> int {
    if is_leading_byte_width_1(byte) {
        1
    } else if is_leading_byte_width_2(byte) {
        2
    } else if is_leading_byte_width_3(byte) {
        3
    } else {
        4
    }
}

/// In well-formed UTF-8 the character that starts at a boundary ends at one.
pub proof fn lemma_boundary_step(bytes: Seq<u8>, at: int)
    requires
        valid_utf8(bytes),
        0 <= at < bytes.len(),
        is_char_boundary(bytes, at),
    ensures
        at + leading_width(bytes[at]) <= bytes.len(),
        is_char_boundary(bytes, at + leading_width(bytes[at])),
{
    let tail = bytes.subrange(at, bytes.len() as int);
    valid_utf8_split(bytes, at);
    assert(valid_first_scalar(tail) && valid_utf8(pop_first_scalar(tail)));
    let width = leading_width(bytes[at]);
    assert(tail[0] == bytes[at]);
    assert(length_of_first_scalar(tail) == width);
    let rest = pop_first_scalar(tail);
    assert(rest =~= bytes.subrange(at + width, bytes.len() as int));
    if at + width == bytes.len() {
        is_char_boundary_start_end_of_seq(bytes);
    } else {
        assert(valid_first_scalar(rest));
        assert(rest[0] == bytes[at + width]);
        is_char_boundary_iff_not_is_continuation_byte(bytes, at + width);
    }
}

/// In well-formed UTF-8 a character starts behind every ASCII byte.
pub proof fn lemma_boundary_after_ascii(bytes: Seq<u8>, at: int)
    requires
        valid_utf8(bytes),
        0 <= at < bytes.len(),
        bytes[at] < 0x80,
    ensures
        is_char_boundary(bytes, at),
        is_char_boundary(bytes, at + 1),
{
    is_char_boundary_iff_not_is_continuation_byte(bytes, at);
    lemma_boundary_step(bytes, at);
}

/// A boundary of a text is a boundary of each prefix that ends at a boundary
/// behind it.
pub proof fn lemma_boundary_in_prefix(bytes: Seq<u8>, start: int, end: int)
    requires
        valid_utf8(bytes),
        0 <= start <= end <= bytes.len(),
        is_char_boundary(bytes, start),
        is_char_boundary(bytes, end),
    ensures
        valid_utf8(bytes.subrange(0, end)),
        is_char_boundary(bytes.subrange(0, end), start),
{
    let prefix = bytes.subrange(0, end);
    valid_utf8_split(bytes, end);
    if start == end {
        is_char_boundary_start_end_of_seq(prefix);
    } else {
        is_char_boundary_iff_not_is_continuation_byte(bytes, start);
        assert(prefix[start] == bytes[start]);
        is_char_boundary_iff_not_is_continuation_byte(prefix, start);
    }
}

/// Blanks are whole characters: a run of them from a boundary ends at one.
pub proof fn lemma_blank_run_boundary(bytes: Seq<u8>, at: int)
    requires
        valid_utf8(bytes),
        0 <= at <= bytes.len(),
        is_char_boundary(bytes, at),
    ensures
        is_char_boundary(bytes, run_end(bytes, at, CharClass::Blank)),
    decreases bytes.len() - at,
{
    let width = blank_width(bytes, at);
    if at < bytes.len() && width > 0 {
        assert(width == leading_width(bytes[at]));
        lemma_boundary_step(bytes, at);
        lemma_blank_run_boundary(bytes, at + width);
    }
}

/// A run of digits holds digits only.
pub proof fn lemma_digit_run(bytes: Seq<u8>, at: int)
    requires
        0 <= at <= bytes.len(),
    ensures
        forall|i: int| at <= i < run_end(bytes, at, CharClass::Digit) ==> is_digit(bytes[i]),
    decreases bytes.len() - at,
{
    if at < bytes.len() && is_digit(bytes[at]) {
        lemma_digit_run(bytes, at + 1);
    }
}

/// In well-formed UTF-8 every token starts and ends between two characters,
/// so that its lexeme is a slice of the text.
pub proof fn lemma_token_boundaries(bytes: Seq<u8>, at: int)
    requires
        valid_utf8(bytes),
        0 <= at <= bytes.len(),
        is_char_boundary(bytes, at),
    ensures
        next_token(bytes, at) matches Ok(token) ==> is_char_boundary(bytes, token.start)
            && is_char_boundary(bytes, token.end),
{
    lemma_next_token_bounds(bytes, at);
    lemma_blank_run_boundary(bytes, at);
    lemma_run_end(bytes, at, CharClass::Blank);
    let start = run_end(bytes, at, CharClass::Blank);
    if start < bytes.len() {
        let first = bytes[start];
        if let Ok(token) = token_at(bytes, start) {
            if is_digit(first) {
                let whole = run_end(bytes, start, CharClass::Digit);
                lemma_run_end(bytes, start, CharClass::Digit);
                lemma_digit_run(bytes, start);
                lemma_run_end(bytes, whole + 1, CharClass::Digit);
                if whole + 1 <= bytes.len() {
                    lemma_digit_run(bytes, whole + 1);
                }
                lemma_boundary_after_ascii(bytes, token.end - 1);
            } else if is_newline(first) || single_symbol(first) is Some {
                lemma_boundary_after_ascii(bytes, start);
            } else if is_quote(first) {
                lemma_find_byte(bytes, start + 1, first);
                lemma_boundary_after_ascii(bytes, token.end - 1);
            } else if compound_symbol(first) is Some {
                lemma_boundary_after_ascii(bytes, token.end - 1);
            } else {
                lemma_run_end(bytes, start, CharClass::Word);
                if token.end < bytes.len() {
                    is_char_boundary_iff_not_is_continuation_byte(bytes, token.end);
                } else {
                    is_char_boundary_start_end_of_seq(bytes);
                }
            }
        }
    } else {
        is_char_boundary_start_end_of_seq(bytes);
    }
}

/// The tokens of `bytes` from the cursor `at` on, behind those in `scanned`:
/// one token after the other up to and with the sentinel, or the first failure.
pub open spec fn tokens_from(bytes: Seq<u8>, at: int, scanned: Seq<TokenSpec>) -> Result<
    Seq<TokenSpec>,
    SyntaxError,
>
    decreases bytes.len() - at,
{
    match next_token(bytes, at) {
        Err(error) => Err(error),
        Ok(token) => if token.kind == TokenType::EOF {
            Ok(scanned.push(token_value(bytes, token)))
        } else {
            proof {
                lemma_next_token_bounds(bytes, at);
            }
            tokens_from(bytes, token.end, scanned.push(token_value(bytes, token)))
        },
    }
}

/// The token sequence of a whole source text.
pub open spec fn tokens_of(bytes: Seq<u8>) -> Result<Seq<TokenSpec>, SyntaxError> {
    tokens_from(bytes, 0, Seq::empty())
}

} // verus!
