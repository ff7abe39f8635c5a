//! What holds of every token sequence that the lexical grammar yields.

use vstd::prelude::*;
use vstd::utf8::*;
use crate::syntax::error::SyntaxError;
use crate::syntax::lexical::{
    blank_width, is_digit, leading_width, lemma_digit_run, lemma_next_token_bounds, lemma_run_end, line_number, newlines_before,
    next_token, number_end, run_end, token_value, tokens_from, tokens_of, CharClass,
    Scanned,
};
use crate::syntax::token::{Position, TokenSpec, TokenType};

verus! {

/// The sentinel closes the sequence and stands nowhere else in it.
pub open spec fn ends_with_single_sentinel(tokens: Seq<TokenSpec>) -> bool {
    &&& tokens.len() > 0
    &&& tokens.last().kind == TokenType::EOF
    &&& forall|i: int| 0 <= i < tokens.len() - 1 ==> (#[trigger] tokens[i]).kind != TokenType::EOF
}

proof fn lemma_tokens_from_sentinel(bytes: Seq<u8>, at: int, scanned: Seq<TokenSpec>)
    requires
        forall|i: int| 0 <= i < scanned.len() ==> (#[trigger] scanned[i]).kind != TokenType::EOF,
    ensures
        tokens_from(bytes, at, scanned) matches Ok(tokens) ==> ends_with_single_sentinel(tokens),
    decreases bytes.len() - at,
{
    if let Ok(token) = next_token(bytes, at) {
        if token.kind != TokenType::EOF {
            lemma_next_token_bounds(bytes, at);
            lemma_tokens_from_sentinel(bytes, token.end, scanned.push(token_value(bytes, token)));
        }
    }
}

/// Whatever the text holds, a token sequence that the grammar yields for it
/// ends with the sentinel, and holds it once.
pub proof fn lemma_tokens_end_with_single_sentinel(bytes: Seq<u8>)
    ensures
        tokens_of(bytes) matches Ok(tokens) ==> ends_with_single_sentinel(tokens),
{
    lemma_tokens_from_sentinel(bytes, 0, Seq::empty());
}

/// The grammar fails on a string literal that is left open, and on nothing else.
pub proof fn lemma_tokens_fail_only_on_open_string(bytes: Seq<u8>)
    ensures
        tokens_of(bytes) matches Err(error) ==> error == SyntaxError::UnterminatedString,
{
    lemma_tokens_from_failure(bytes, 0, Seq::empty());
}

proof fn lemma_tokens_from_failure(bytes: Seq<u8>, at: int, scanned: Seq<TokenSpec>)
    ensures
        tokens_from(bytes, at, scanned) matches Err(error) ==> error
            == SyntaxError::UnterminatedString,
    decreases bytes.len() - at,
{
    if let Ok(token) = next_token(bytes, at) {
        if token.kind != TokenType::EOF {
            lemma_next_token_bounds(bytes, at);
            lemma_tokens_from_failure(bytes, token.end, scanned.push(token_value(bytes, token)));
        }
    }
}

/// A decimal digit, as a character.
pub open spec fn is_digit_char(c: char) -> bool {
    '0' <= c <= '9'
}

/// A numeral: digits, with at most one decimal point, which stands neither
/// first nor last.
pub open spec fn is_numeral(text: Seq<char>) -> bool {
    &&& text.len() > 0
    &&& forall|i: int| 0 <= i < text.len() ==> is_digit_char(#[trigger] text[i]) || text[i] == '.'
    &&& forall|i: int, j: int|
        0 <= i < j < text.len() ==> !(#[trigger] text[i] == '.' && #[trigger] text[j] == '.')
    &&& text.first() != '.'
    &&& text.last() != '.'
}

proof fn lemma_digit_run_end(bytes: Seq<u8>, from: int, to: int)
    requires
        0 <= from <= to <= bytes.len(),
        forall|i: int| from <= i < to ==> is_digit(#[trigger] bytes[i]),
        to == bytes.len() || !is_digit(bytes[to]),
    ensures
        run_end(bytes, from, CharClass::Digit) == to,
    decreases to - from,
{
    if from < to {
        lemma_digit_run_end(bytes, from + 1, to);
    }
}

proof fn lemma_no_newline(bytes: Seq<u8>, offset: int)
    requires
        forall|i: int| 0 <= i < bytes.len() ==> #[trigger] bytes[i] != '\n' as u8,
    ensures
        newlines_before(bytes, offset) == 0,
    decreases offset,
{
    if 0 < offset <= bytes.len() {
        lemma_no_newline(bytes, offset - 1);
    }
}

/// A text that is one numeral is one `Number` token, whose lexeme is the
/// whole text, and the sentinel behind it.
pub proof fn lemma_numeral_is_one_number(text: Seq<char>)
    requires
        is_numeral(text),
        text.len() <= usize::MAX,
    ensures
        tokens_of(encode_utf8(text)) == Ok::<Seq<TokenSpec>, SyntaxError>(
            seq![
                TokenSpec {
                    kind: TokenType::Number,
                    lexeme: text,
                    position: Position { start: 0, end: text.len() as usize, line: 1 },
                },
                TokenSpec {
                    kind: TokenType::EOF,
                    lexeme: Seq::empty(),
                    position: Position {
                        start: text.len() as usize,
                        end: text.len() as usize,
                        line: 1,
                    },
                },
            ],
        ),
{
    let bytes = encode_utf8(text);
    let length = text.len() as int;
    assert(is_ascii_chars(text));
    is_ascii_chars_encode_utf8(text);
    assert forall|i: int| 0 <= i < length implies (is_digit(#[trigger] bytes[i]) || bytes[i]
        == '.' as u8) && bytes[i] != '\n' as u8 && (bytes[i] == '.' as u8 <==> text[i] == '.') by {
        assert(bytes[i] == text[i] as u8);
    }
    lemma_no_newline(bytes, 0);
    lemma_no_newline(bytes, length);
    // The numeral is the whole text.
    if exists|k: int| 0 <= k < length && text[k] == '.' {
        let k = choose|k: int| 0 <= k < length && text[k] == '.';
        assert forall|i: int| 0 <= i < length && i != k implies is_digit(#[trigger] bytes[i]) by {
            if i < k {
                assert(!(text[i] == '.' && text[k] == '.'));
            } else {
                assert(!(text[k] == '.' && text[i] == '.'));
            }
        }
        lemma_digit_run_end(bytes, 0, k);
        lemma_digit_run_end(bytes, k + 1, length);
    } else {
        lemma_digit_run_end(bytes, 0, length);
    }
    assert(number_end(bytes, 0) == length);
    assert(run_end(bytes, 0, CharClass::Blank) == 0);
    let number = Scanned { kind: TokenType::Number, start: 0, end: length };
    assert(next_token(bytes, 0) == Ok::<Scanned, SyntaxError>(number));
    lemma_run_end(bytes, length, CharClass::Blank);
    let sentinel = Scanned { kind: TokenType::EOF, start: length, end: length };
    assert(next_token(bytes, length) == Ok::<Scanned, SyntaxError>(sentinel));
    // The lexemes.
    assert(bytes.subrange(0, length) =~= bytes);
    encode_utf8_decode_utf8(text);
    assert(bytes.subrange(length, length) =~= Seq::<u8>::empty());
    assert(decode_utf8(Seq::<u8>::empty()) =~= Seq::<char>::empty());
    let first = token_value(bytes, number);
    let second = token_value(bytes, sentinel);
    assert(tokens_from(bytes, length, seq![first]) == Ok::<Seq<TokenSpec>, SyntaxError>(
        seq![first].push(second),
    ));
    assert(Seq::<TokenSpec>::empty().push(first) =~= seq![first]);
    assert(seq![first].push(second) =~= seq![first, second]);
}

/// ASCII bytes decode to the characters with their codes, one for one.
proof fn lemma_decode_ascii(bytes: Seq<u8>)
    requires
        forall|i: int| 0 <= i < bytes.len() ==> #[trigger] bytes[i] < 0x80,
    ensures
        decode_utf8(bytes).len() == bytes.len(),
        forall|i: int| 0 <= i < bytes.len() ==> #[trigger] decode_utf8(bytes)[i] == bytes[i] as char,
{
    let chars = Seq::new(bytes.len(), |i: int| bytes[i] as char);
    assert(is_ascii_chars(chars)) by {
        assert forall|i: int| 0 <= i < chars.len() implies '\0' <= #[trigger] chars[i]
            <= '\u{7f}' by {
            assert(bytes[i] < 0x80);
        }
    }
    is_ascii_chars_encode_utf8(chars);
    assert(encode_utf8(chars) =~= bytes) by {
        assert forall|i: int| 0 <= i < bytes.len() implies encode_utf8(chars)[i] == bytes[i] by {
            assert(bytes[i] < 0x80);
            assert(chars[i] as u8 == encode_utf8(chars)[i]);
        }
    }
    encode_utf8_decode_utf8(chars);
}

/// The bytes of a numeral in the text: digits, with at most one point, which
/// stands between two of them.
proof fn lemma_number_span(bytes: Seq<u8>, start: int)
    requires
        0 <= start < bytes.len(),
        is_digit(bytes[start]),
    ensures
        start < number_end(bytes, start) <= bytes.len(),
        is_digit(bytes[number_end(bytes, start) - 1]),
        forall|i: int|
            start <= i < number_end(bytes, start) ==> is_digit(#[trigger] bytes[i]) || bytes[i]
                == '.' as u8,
        forall|i: int, j: int|
            start <= i < j < number_end(bytes, start) ==> !(#[trigger] bytes[i] == '.' as u8
                && #[trigger] bytes[j] == '.' as u8),
{
    let whole = run_end(bytes, start, CharClass::Digit);
    lemma_run_end(bytes, start + 1, CharClass::Digit);
    lemma_digit_run(bytes, start);
    if whole + 1 < bytes.len() && bytes[whole] == '.' as u8 && is_digit(bytes[whole + 1]) {
        lemma_run_end(bytes, whole + 2, CharClass::Digit);
        lemma_digit_run(bytes, whole + 1);
    }
}

/// A `Number` token that the grammar finds is a numeral.
proof fn lemma_number_token_is_numeral(bytes: Seq<u8>, at: int)
    ensures
        next_token(bytes, at) matches Ok(token) ==> token.kind == TokenType::Number ==> is_numeral(
            token_value(bytes, token).lexeme,
        ),
{
    lemma_next_token_bounds(bytes, at);
    lemma_run_end(bytes, at, CharClass::Blank);
    if let Ok(token) = next_token(bytes, at) {
        if token.kind == TokenType::Number {
            let start = token.start;
            assert(is_digit(bytes[start]));
            lemma_number_span(bytes, start);
            let span = bytes.subrange(start, token.end);
            assert forall|i: int| 0 <= i < span.len() implies #[trigger] span[i] < 0x80 by {
                assert(span[i] == bytes[start + i]);
            }
            lemma_decode_ascii(span);
            let text = decode_utf8(span);
            assert forall|i: int| 0 <= i < text.len() implies (is_digit_char(#[trigger] text[i])
                <==> is_digit(bytes[start + i])) && (text[i] == '.' <==> bytes[start + i]
                == '.' as u8) by {
                assert(span[i] == bytes[start + i]);
                assert(text[i] == span[i] as char);
            }
            assert forall|i: int, j: int| 0 <= i < j < text.len() implies !(#[trigger] text[i]
                == '.' && #[trigger] text[j] == '.') by {
                assert(!(bytes[start + i] == '.' as u8 && bytes[start + j] == '.' as u8));
            }
            assert(is_digit_char(text.first()));
            assert(is_digit_char(text.last()));
        }
    }
}

/// Every token of the kind `Number` holds a numeral.
pub open spec fn numbers_are_numerals(tokens: Seq<TokenSpec>) -> bool {
    forall|i: int|
        0 <= i < tokens.len() && (#[trigger] tokens[i]).kind == TokenType::Number ==> is_numeral(
            tokens[i].lexeme,
        )
}

proof fn lemma_tokens_from_numerals(bytes: Seq<u8>, at: int, scanned: Seq<TokenSpec>)
    requires
        numbers_are_numerals(scanned),
    ensures
        tokens_from(bytes, at, scanned) matches Ok(tokens) ==> numbers_are_numerals(tokens),
    decreases bytes.len() - at,
{
    if let Ok(token) = next_token(bytes, at) {
        lemma_number_token_is_numeral(bytes, at);
        if token.kind != TokenType::EOF {
            lemma_next_token_bounds(bytes, at);
            lemma_tokens_from_numerals(bytes, token.end, scanned.push(token_value(bytes, token)));
        }
    }
}

/// Whatever the text holds, the lexeme of every `Number` token that the
/// grammar yields for it is a numeral: what reads the tokens need not check
/// a number's text again.
pub proof fn lemma_numbers_are_numerals(bytes: Seq<u8>)
    ensures
        tokens_of(bytes) matches Ok(tokens) ==> numbers_are_numerals(tokens),
{
    lemma_tokens_from_numerals(bytes, 0, Seq::empty());
}

/// The blank characters: those with the Unicode property `White_Space`, but
/// for the line break.
pub open spec fn is_blank_char(c: char) -> bool {
    let code = c as u32;
    code == 0x09 || code == 0x0B || code == 0x0C || code == 0x0D || code == 0x20 || code == 0x85
        || code == 0xA0 || code == 0x1680 || (0x2000 <= code <= 0x200A) || code == 0x2028 || code
        == 0x2029 || code == 0x202F || code == 0x205F || code == 0x3000
}

proof fn lemma_blank_of_two_bytes(first: u8, second: u8, code: u32)
    by (bit_vector)
    requires
        0xC0 <= first <= 0xDF,
        0x80 <= second <= 0xBF,
        code == (((first & 0x1F) as u32) << 6) | ((second & 0x3F) as u32),
    ensures
        code <= 0x7FF,
        (first == 0xC2 && second == 0x85) <==> code == 0x85,
        (first == 0xC2 && second == 0xA0) <==> code == 0xA0,
{
}

proof fn lemma_blank_of_three_bytes(first: u8, second: u8, third: u8, code: u32)
    by (bit_vector)
    requires
        0xE0 <= first <= 0xEF,
        0x80 <= second <= 0xBF,
        0x80 <= third <= 0xBF,
        code == (((first & 0x0F) as u32) << 12) | (((second & 0x3F) as u32) << 6) | ((third
            & 0x3F) as u32),
    ensures
        code <= 0xFFFF,
        (first == 0xE1 && second == 0x9A && third == 0x80) <==> code == 0x1680,
        (first == 0xE2 && second == 0x80 && 0x80 <= third <= 0x8A) <==> 0x2000 <= code <= 0x200A,
        (first == 0xE2 && second == 0x80 && third == 0xA8) <==> code == 0x2028,
        (first == 0xE2 && second == 0x80 && third == 0xA9) <==> code == 0x2029,
        (first == 0xE2 && second == 0x80 && third == 0xAF) <==> code == 0x202F,
        (first == 0xE2 && second == 0x81 && third == 0x9F) <==> code == 0x205F,
        (first == 0xE3 && second == 0x80 && third == 0x80) <==> code == 0x3000,
{
}

proof fn lemma_code_of_one_byte(first: u8)
    by (bit_vector)
    requires
        first <= 0x7F,
    ensures
        (first & 0x7F) as u32 == first as u32,
{
}

/// The byte patterns of the lexical grammar are the encodings of the blank
/// characters: at the start of a character, the grammar finds a blank exactly
/// where the character is one, and of the character's width.
pub proof fn lemma_blank_width_is_of_blank_chars(bytes: Seq<u8>, at: int)
    requires
        valid_utf8(bytes),
        0 <= at < bytes.len(),
        is_char_boundary(bytes, at),
    ensures
        blank_width(bytes, at) == (if is_blank_char(
            decode_first_scalar(bytes.subrange(at, bytes.len() as int)) as char,
        ) {
            leading_width(bytes[at])
        } else {
            0
        }),
{
    let tail = bytes.subrange(at, bytes.len() as int);
    valid_utf8_split(bytes, at);
    assert(valid_first_scalar(tail));
    let code = decode_first_scalar(tail);
    let first = bytes[at];
    assert(tail[0] == first);
    assert(code <= 0x10FFFF && !(0xD800 <= code <= 0xDFFF)) by {
        if is_leading_byte_width_1(first) {
            lemma_code_of_one_byte(first);
        } else if is_leading_byte_width_2(first) {
            lemma_blank_of_two_bytes(first, tail[1], code);
        } else if is_leading_byte_width_3(first) {
            lemma_blank_of_three_bytes(first, tail[1], tail[2], code);
        }
    }
    assert((code as char) as u32 == code);
    if is_leading_byte_width_1(first) {
        lemma_code_of_one_byte(first);
    } else if is_leading_byte_width_2(first) {
        assert(tail[1] == bytes[at + 1]);
        lemma_blank_of_two_bytes(first, tail[1], code);
    } else if is_leading_byte_width_3(first) {
        assert(tail[1] == bytes[at + 1]);
        assert(tail[2] == bytes[at + 2]);
        lemma_blank_of_three_bytes(first, tail[1], tail[2], code);
    } else {
    }
}

/// The token `token` lies in the text: it holds the slice of the text at its
/// position, and the number of the line that it starts on.
pub open spec fn lies_in(bytes: Seq<u8>, token: TokenSpec) -> bool {
    &&& token.position.start <= token.position.end <= bytes.len()
    &&& token.lexeme == decode_utf8(
        bytes.subrange(token.position.start as int, token.position.end as int),
    )
    &&& token.position.line == line_number(bytes, token.position.start as int)
}

/// The token `next` follows the token `previous` in the text: nothing but
/// blanks stands between them.
pub open spec fn follows(bytes: Seq<u8>, previous: TokenSpec, next: TokenSpec) -> bool {
    &&& previous.position.end <= next.position.start
    &&& next.position.start == run_end(bytes, previous.position.end as int, CharClass::Blank)
    &&& previous.position.line <= next.position.line
}

/// The tokens lie in the text one behind the other: each holds the slice of
/// the text at its position, nothing but blanks stands before the first or
/// between two of them, and the line numbers never fall.
pub open spec fn lie_in_order(bytes: Seq<u8>, tokens: Seq<TokenSpec>) -> bool {
    &&& forall|i: int| 0 <= i < tokens.len() ==> lies_in(bytes, #[trigger] tokens[i])
    &&& tokens.len() > 0 ==> tokens[0].position.start == run_end(bytes, 0, CharClass::Blank)
    &&& forall|i: int, j: int|
        0 <= i && j == i + 1 && j < tokens.len() ==> follows(
            bytes,
            #[trigger] tokens[i],
            #[trigger] tokens[j],
        )
}

proof fn lemma_lines_rise(bytes: Seq<u8>, from: int, to: int)
    requires
        0 <= from <= to <= bytes.len(),
    ensures
        newlines_before(bytes, from) <= newlines_before(bytes, to),
        line_number(bytes, from) <= line_number(bytes, to),
    decreases to - from,
{
    if from < to {
        lemma_lines_rise(bytes, from, to - 1);
    }
}

proof fn lemma_in_order_push(bytes: Seq<u8>, scanned: Seq<TokenSpec>, token: TokenSpec)
    requires
        lie_in_order(bytes, scanned),
        lies_in(bytes, token),
        scanned.len() == 0 ==> token.position.start == run_end(bytes, 0, CharClass::Blank),
        scanned.len() > 0 ==> follows(bytes, scanned.last(), token),
    ensures
        lie_in_order(bytes, scanned.push(token)),
{
    let extended = scanned.push(token);
    assert forall|i: int| 0 <= i < extended.len() implies lies_in(bytes, #[trigger] extended[i]) by {
        if i < scanned.len() {
            assert(extended[i] == scanned[i]);
        }
    }
    assert forall|i: int, j: int| 0 <= i && j == i + 1 && j < extended.len() implies follows(
        bytes,
        #[trigger] extended[i],
        #[trigger] extended[j],
    ) by {
        assert(extended[i] == scanned[i]);
        if j < scanned.len() {
            assert(extended[j] == scanned[j]);
        }
    }
}

proof fn lemma_tokens_from_in_order(bytes: Seq<u8>, at: int, scanned: Seq<TokenSpec>)
    requires
        bytes.len() <= usize::MAX,
        0 <= at <= bytes.len(),
        lie_in_order(bytes, scanned),
        scanned.len() == 0 ==> at == 0,
        scanned.len() > 0 ==> scanned.last().position.end == at,
    ensures
        tokens_from(bytes, at, scanned) matches Ok(tokens) ==> lie_in_order(bytes, tokens),
    decreases bytes.len() - at,
{
    if let Ok(token) = next_token(bytes, at) {
        lemma_next_token_bounds(bytes, at);
        let value = token_value(bytes, token);
        assert(lies_in(bytes, value));
        if scanned.len() > 0 {
            assert(lies_in(bytes, scanned.last()));
            lemma_lines_rise(bytes, scanned.last().position.start as int, token.start);
        }
        lemma_in_order_push(bytes, scanned, value);
        if token.kind != TokenType::EOF {
            lemma_tokens_from_in_order(bytes, token.end, scanned.push(value));
        }
    }
}

/// Whatever the text holds, the tokens that the grammar yields for it lie in
/// it in order, and the grammar passes over nothing but blanks.
pub proof fn lemma_tokens_lie_in_order(bytes: Seq<u8>)
    requires
        bytes.len() <= usize::MAX,
    ensures
        tokens_of(bytes) matches Ok(tokens) ==> lie_in_order(bytes, tokens),
{
    lemma_tokens_from_in_order(bytes, 0, Seq::empty());
}

} // verus!
