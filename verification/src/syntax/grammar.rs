//! The grammar: what the parser yields for a token sequence, as functions of
//! the sequence and of a position in it. A production yields the value of the
//! tree that it recognises together with the position behind the last token
//! that it consumed, or the first failure that it meets.
//!
//! Where one production is followed by another at the position that the
//! first one yields, the grammar asks that the first has advanced. Every
//! production that succeeds has consumed a token, which is proved of the
//! finished grammar, so the question is always answered with yes; it is what
//! makes the definitions well-founded.

use vstd::prelude::*;
use crate::syntax::ast::{binary_operator, unary_operator, ExprSpec};
use crate::syntax::error::ParserError;
use crate::syntax::expr_parser::{precedence_of, Precedence};
use crate::syntax::token::{Keyword, TokenSpec, TokenType};

verus! {

/// The kind of the token at `at`; the sentinel's kind behind the last token.
pub open spec fn kind_at(tokens: Seq<TokenSpec>, at: int) -> TokenType {
    if 0 <= at < tokens.len() {
        tokens[at].kind
    } else {
        TokenType::EOF
    }
}

/// The line of the token at `at`; behind the last token, the line of the last
/// token, and 1 where there is none.
pub open spec fn line_at(tokens: Seq<TokenSpec>, at: int) -> usize {
    if 0 <= at < tokens.len() {
        tokens[at].position.line
    } else if tokens.len() > 0 {
        tokens.last().position.line
    } else {
        1
    }
}

/// A token of kind `kind` is required at `at`: the position behind it, or
/// the mismatch with what stands there instead.
pub open spec fn expect(tokens: Seq<TokenSpec>, at: int, kind: TokenType) -> Result<
    int,
    ParserError,
> {
    if kind_at(tokens, at) != kind {
        Err(ParserError::Expect(kind, kind_at(tokens, at), line_at(tokens, at)))
    } else if 0 <= at < tokens.len() {
        Ok(at + 1)
    } else {
        Err(ParserError::UnexpectedEOF)
    }
}

/// `next` lies behind `at` and inside the sequence: a production that ended
/// at `next` consumed a token.
pub open spec fn advanced(tokens: Seq<TokenSpec>, at: int, next: int) -> bool {
    at < next <= tokens.len()
}

/// The operators that continue an expression as a binary one.
pub open spec fn is_infix_operator(kind: TokenType) -> bool {
    match kind {
        TokenType::BangEqual
        | TokenType::EqualEqual
        | TokenType::LessThan
        | TokenType::LessThanEqual
        | TokenType::GreaterThan
        | TokenType::GreaterThanEqual
        | TokenType::Plus
        | TokenType::Minus
        | TokenType::Star
        | TokenType::Slash => true,
        _ => false,
    }
}

/// A primary expression: a number, a read of a name, or, where `=` follows
/// the name, an assignment whose value is a whole expression statement.
pub open spec fn primary(tokens: Seq<TokenSpec>, at: int) -> Result<(ExprSpec, int), ParserError>
    decreases tokens.len() - at, 1int,
{
    if !(0 <= at < tokens.len()) {
        Err(ParserError::UnexpectedEOF)
    } else {
        match tokens[at].kind {
            TokenType::Number => Ok((ExprSpec::Number(tokens[at].lexeme), at + 1)),
            TokenType::Identifier => if kind_at(tokens, at + 1) == TokenType::Equal {
                match expression_statement(tokens, at + 2) {
                    Ok((value, next)) => Ok(
                        (ExprSpec::LetSet(tokens[at].lexeme, Box::new(value)), next),
                    ),
                    Err(error) => Err(error),
                }
            } else {
                Ok((ExprSpec::LetGet(tokens[at].lexeme), at + 1))
            },
            kind => Err(ParserError::UnsupportedConstruct(kind, tokens[at].position.line)),
        }
    }
}

/// A unary expression: the operator, then an operand that binds at least as
/// tightly as a unary operator does.
pub open spec fn unary(tokens: Seq<TokenSpec>, at: int) -> Result<(ExprSpec, int), ParserError>
    decreases tokens.len() - at, 1int,
{
    if !(0 <= at < tokens.len()) {
        Err(ParserError::UnexpectedEOF)
    } else {
        match unary_operator(tokens[at].kind) {
            None => Err(
                ParserError::UnsupportedConstruct(tokens[at].kind, tokens[at].position.line),
            ),
            Some(operator) => match expression_above(tokens, at + 1, Precedence::Unary) {
                Ok((operand, next)) => Ok((ExprSpec::Unary(operator, Box::new(operand)), next)),
                Err(error) => Err(error),
            },
        }
    }
}

/// A grouping: an expression between parentheses.
pub open spec fn grouping(tokens: Seq<TokenSpec>, at: int) -> Result<(ExprSpec, int), ParserError>
    decreases tokens.len() - at, 1int,
{
    match expect(tokens, at, TokenType::LeftParen) {
        Err(error) => Err(error),
        Ok(inside) => match expression_above(tokens, inside, Precedence::Lowest) {
            Err(error) => Err(error),
            Ok((inner, closing)) => match expect(tokens, closing, TokenType::RightParen) {
                Err(error) => Err(error),
                Ok(next) => Ok((ExprSpec::Grouping(Box::new(inner)), next)),
            },
        },
    }
}

/// What may open an expression. Where the input has ended, that is the
/// failure; any other token opens a construct that has no production.
pub open spec fn prefix(tokens: Seq<TokenSpec>, at: int) -> Result<(ExprSpec, int), ParserError>
    decreases tokens.len() - at, 2int,
{
    match kind_at(tokens, at) {
        TokenType::Number | TokenType::Identifier | TokenType::String => primary(tokens, at),
        TokenType::Bang | TokenType::Minus => unary(tokens, at),
        TokenType::LeftParen => grouping(tokens, at),
        TokenType::EOF => Err(ParserError::UnexpectedEOF),
        kind => Err(ParserError::UnsupportedConstruct(kind, line_at(tokens, at))),
    }
}

/// A binary expression from its operator on: the right operand binds more
/// tightly than the operator, so that operators of one level chain leftward.
pub open spec fn binary(tokens: Seq<TokenSpec>, at: int, left: ExprSpec) -> Result<
    (ExprSpec, int),
    ParserError,
>
    decreases tokens.len() - at, 1int,
{
    if !(0 <= at < tokens.len()) {
        Err(ParserError::UnexpectedEOF)
    } else {
        match binary_operator(tokens[at].kind) {
            None => Err(
                ParserError::UnsupportedConstruct(tokens[at].kind, tokens[at].position.line),
            ),
            Some(operator) => match expression_above(
                tokens,
                at + 1,
                precedence_of(tokens[at].kind),
            ) {
                Ok((right, next)) => Ok(
                    (ExprSpec::Binary(operator, Box::new(left), Box::new(right)), next),
                ),
                Err(error) => Err(error),
            },
        }
    }
}

/// What may continue an expression: a binary operator. Assignment, the
/// logical operators, calls and member access are levels of the ladder
/// without a production.
pub open spec fn infix(tokens: Seq<TokenSpec>, at: int, left: ExprSpec) -> Result<
    (ExprSpec, int),
    ParserError,
>
    decreases tokens.len() - at, 2int,
{
    if is_infix_operator(kind_at(tokens, at)) {
        binary(tokens, at, left)
    } else {
        Err(ParserError::UnsupportedConstruct(kind_at(tokens, at), line_at(tokens, at)))
    }
}

/// The continuations of `left`: as long as the next token binds strictly
/// above `floor`, it continues the expression, and what it yields is
/// continued in turn.
pub open spec fn infix_chain(
    tokens: Seq<TokenSpec>,
    at: int,
    left: ExprSpec,
    floor: Precedence,
) -> Result<(ExprSpec, int), ParserError>
    decreases tokens.len() - at, 3int,
{
    if precedence_of(kind_at(tokens, at)).rank() <= floor.rank() {
        Ok((left, at))
    } else {
        match infix(tokens, at, left) {
            Err(error) => Err(error),
            Ok((folded, next)) => if advanced(tokens, at, next) {
                infix_chain(tokens, next, folded, floor)
            } else {
                Err(ParserError::UnexpectedEOF)
            },
        }
    }
}

/// An expression whose operators all bind strictly above `floor`.
pub open spec fn expression_above(tokens: Seq<TokenSpec>, at: int, floor: Precedence) -> Result<
    (ExprSpec, int),
    ParserError,
>
    decreases tokens.len() - at, 3int,
{
    match prefix(tokens, at) {
        Err(error) => Err(error),
        Ok((left, next)) => if advanced(tokens, at, next) {
            infix_chain(tokens, next, left, floor)
        } else {
            Err(ParserError::UnexpectedEOF)
        },
    }
}

/// An expression.
pub open spec fn expression(tokens: Seq<TokenSpec>, at: int) -> Result<(ExprSpec, int), ParserError>
    decreases tokens.len() - at, 4int,
{
    expression_above(tokens, at, Precedence::Lowest)
}

/// An expression and the terminator behind it.
pub open spec fn expression_statement(tokens: Seq<TokenSpec>, at: int) -> Result<
    (ExprSpec, int),
    ParserError,
>
    decreases tokens.len() - at, 5int,
{
    match expression(tokens, at) {
        Err(error) => Err(error),
        Ok((value, end)) => match expect(tokens, end, TokenType::Line) {
            Err(error) => Err(error),
            Ok(next) => Ok((value, next)),
        },
    }
}

/// A declaration: `let`, a name, and then `=` with an expression statement,
/// or the terminator alone, which leaves the initializer nil.
pub open spec fn let_declaration(tokens: Seq<TokenSpec>, at: int) -> Result<
    (ExprSpec, int),
    ParserError,
>
    decreases tokens.len() - at, 6int,
{
    match expect(tokens, at, TokenType::Keyword(Keyword::Let)) {
        Err(error) => Err(error),
        Ok(name_at) => match expect(tokens, name_at, TokenType::Identifier) {
            Err(error) => Err(error),
            Ok(after_name) => {
                let name = tokens[name_at].lexeme;
                if kind_at(tokens, after_name) == TokenType::Equal {
                    match expression_statement(tokens, after_name + 1) {
                        Err(error) => Err(error),
                        Ok((initializer, next)) => Ok(
                            (ExprSpec::LetAssign(name, Box::new(initializer)), next),
                        ),
                    }
                } else {
                    match expect(tokens, after_name, TokenType::Line) {
                        Err(error) => Err(error),
                        Ok(next) => Ok(
                            (ExprSpec::LetAssign(name, Box::new(ExprSpec::Nil)), next),
                        ),
                    }
                }
            },
        },
    }
}

/// The parameters of a function from `at` on, behind those in `names`: names
/// with a comma between, up to a `)` or the end of the input. A comma may
/// stand behind the last name.
pub open spec fn parameters(tokens: Seq<TokenSpec>, at: int, names: Seq<Seq<char>>) -> Result<
    (Seq<Seq<char>>, int),
    ParserError,
>
    decreases tokens.len() - at,
{
    if kind_at(tokens, at) == TokenType::RightParen || kind_at(tokens, at) == TokenType::EOF {
        Ok((names, at))
    } else {
        match expect(tokens, at, TokenType::Identifier) {
            Err(error) => Err(error),
            Ok(next) => if kind_at(tokens, next) == TokenType::Comma {
                parameters(tokens, next + 1, names.push(tokens[at].lexeme))
            } else {
                Ok((names.push(tokens[at].lexeme), next))
            },
        }
    }
}

/// The parameter list ends at or behind its start, inside the sequence.
pub proof fn lemma_parameters_end(tokens: Seq<TokenSpec>, at: int, names: Seq<Seq<char>>)
    requires
        0 <= at <= tokens.len(),
    ensures
        parameters(tokens, at, names) matches Ok((_, next)) ==> at <= next <= tokens.len(),
    decreases tokens.len() - at,
{
    if kind_at(tokens, at) != TokenType::RightParen && kind_at(tokens, at) != TokenType::EOF
        && kind_at(tokens, at) == TokenType::Identifier && kind_at(tokens, at + 1)
        == TokenType::Comma {
        lemma_parameters_end(tokens, at + 2, names.push(tokens[at].lexeme));
    }
}

/// A function declaration: `def`, a name, the parameters between
/// parentheses, and a block.
pub open spec fn function_declaration(tokens: Seq<TokenSpec>, at: int) -> Result<
    (ExprSpec, int),
    ParserError,
>
    decreases tokens.len() - at, 6int,
{
    match expect(tokens, at, TokenType::Keyword(Keyword::Def)) {
        Err(error) => Err(error),
        Ok(name_at) => match expect(tokens, name_at, TokenType::Identifier) {
            Err(error) => Err(error),
            Ok(opening) => match expect(tokens, opening, TokenType::LeftParen) {
                Err(error) => Err(error),
                Ok(first) => match parameters(tokens, first, Seq::empty()) {
                    Err(error) => Err(error),
                    Ok((names, closing)) => match expect(tokens, closing, TokenType::RightParen) {
                        Err(error) => Err(error),
                        Ok(body_at) => {
                            proof {
                                lemma_parameters_end(tokens, first, Seq::empty());
                            }
                            match block(tokens, body_at) {
                                Err(error) => Err(error),
                                Ok((body, next)) => Ok(
                                    (
                                        ExprSpec::Function(tokens[name_at].lexeme, names, body),
                                        next,
                                    ),
                                ),
                            }
                        },
                    },
                },
            },
        },
    }
}

/// A return statement: `return` and the terminator, or `return` and one
/// statement, which is the value returned.
pub open spec fn return_statement(tokens: Seq<TokenSpec>, at: int) -> Result<
    (ExprSpec, int),
    ParserError,
>
    decreases tokens.len() - at, 6int,
{
    match expect(tokens, at, TokenType::Keyword(Keyword::Return)) {
        Err(error) => Err(error),
        Ok(after) => if kind_at(tokens, after) == TokenType::Line {
            Ok((ExprSpec::Return(None), after + 1))
        } else {
            match statement(tokens, after) {
                Err(error) => Err(error),
                Ok((value, next)) => Ok((ExprSpec::Return(Some(Box::new(value))), next)),
            }
        },
    }
}

/// One statement, told by its first token.
pub open spec fn statement(tokens: Seq<TokenSpec>, at: int) -> Result<(ExprSpec, int), ParserError>
    decreases tokens.len() - at, 7int,
{
    match kind_at(tokens, at) {
        TokenType::Keyword(Keyword::Let) => let_declaration(tokens, at),
        TokenType::Keyword(Keyword::Def) => function_declaration(tokens, at),
        TokenType::Keyword(Keyword::Return) => return_statement(tokens, at),
        _ => expression_statement(tokens, at),
    }
}

/// The statements of a block from `at` on, behind those in `parsed`, up to
/// `end` or the end of the input.
pub open spec fn block_statements(tokens: Seq<TokenSpec>, at: int, parsed: Seq<ExprSpec>) -> Result<
    (Seq<ExprSpec>, int),
    ParserError,
>
    decreases tokens.len() - at, 8int,
{
    if kind_at(tokens, at) == TokenType::Keyword(Keyword::End) || kind_at(tokens, at)
        == TokenType::EOF {
        Ok((parsed, at))
    } else {
        match statement(tokens, at) {
            Err(error) => Err(error),
            Ok((value, next)) => if advanced(tokens, at, next) {
                block_statements(tokens, next, parsed.push(value))
            } else {
                Err(ParserError::UnexpectedEOF)
            },
        }
    }
}

/// A block: a terminator that may lead it, its statements, `end`, and the
/// terminator.
pub open spec fn block(tokens: Seq<TokenSpec>, at: int) -> Result<(Seq<ExprSpec>, int), ParserError>
    decreases tokens.len() - at, 9int,
{
    let first = if kind_at(tokens, at) == TokenType::Line {
        at + 1
    } else {
        at
    };
    match block_statements(tokens, first, Seq::empty()) {
        Err(error) => Err(error),
        Ok((statements, closing)) => match expect(
            tokens,
            closing,
            TokenType::Keyword(Keyword::End),
        ) {
            Err(error) => Err(error),
            Ok(terminator) => match expect(tokens, terminator, TokenType::Line) {
                Err(error) => Err(error),
                Ok(next) => Ok((statements, next)),
            },
        },
    }
}

/// The statements of a source unit from `at` on, behind those in `parsed`,
/// up to the sentinel.
pub open spec fn module_from(tokens: Seq<TokenSpec>, at: int, parsed: Seq<ExprSpec>) -> Result<
    Seq<ExprSpec>,
    ParserError,
>
    decreases tokens.len() - at,
{
    if kind_at(tokens, at) == TokenType::EOF {
        Ok(parsed)
    } else {
        match statement(tokens, at) {
            Err(error) => Err(error),
            Ok((value, next)) => if advanced(tokens, at, next) {
                module_from(tokens, next, parsed.push(value))
            } else {
                Err(ParserError::UnexpectedEOF)
            },
        }
    }
}

/// The syntax tree of a whole token sequence: its statements in order, or
/// the first failure.
pub open spec fn module(tokens: Seq<TokenSpec>) -> Result<Seq<ExprSpec>, ParserError> {
    module_from(tokens, 0, Seq::empty())
}

} // verus!
