//! The expression parser: precedence climbing over the token cursor.

use vstd::prelude::*;
use vstd::std_specs::convert::FromSpecImpl;
use vstd::string::*;
use crate::syntax::ast::{
    BinaryExpr, BinaryOperator, Expr, ExprSpec, GroupingExpr, LetGetExpr, LetSetExpr, LiteralExpr,
    UnaryExpr, UnaryOperator, Variable,
};
use crate::syntax::error::ParserError;
use crate::syntax::grammar::{
    advanced, binary, expression, expression_above, grouping, infix, infix_chain, prefix, primary,
    unary,
};
use crate::syntax::parser::{parsed_as, AstParser};
use crate::syntax::token::TokenType;

verus! {

/// The precedence ladder, lowest first.
#[derive(Debug, PartialEq, Eq, PartialOrd, Clone, Copy, Structural)]
pub enum Precedence {
    /// The floor of the ladder: the level of every token that is no operator.
    Lowest,
    /// `=`
    Assign,
    Or,
    And,
    /// `==` `!=`
    Equality,
    /// `<` `<=` `>` `>=`
    Comparison,
    /// `+` `-`
    Term,
    /// `*` `/`
    Factor,
    /// `!` `-`
    Unary,
    /// `(` `.`
    Call,
    Primary,
}

/// The level that a token binds at as an operator; the lowest for every token
/// that is no operator, which ends an expression.
pub open spec fn precedence_of(kind: TokenType) -> Precedence {
    match kind {
        TokenType::Equal => Precedence::Assign,
        TokenType::BangEqual | TokenType::EqualEqual => Precedence::Equality,
        TokenType::LessThan
        | TokenType::LessThanEqual
        | TokenType::GreaterThan
        | TokenType::GreaterThanEqual => Precedence::Comparison,
        TokenType::Plus | TokenType::Minus => Precedence::Term,
        TokenType::Star | TokenType::Slash => Precedence::Factor,
        TokenType::Bang => Precedence::Unary,
        TokenType::LeftParen => Precedence::Call,
        TokenType::Dot => Precedence::Call,
        _ => Precedence::Lowest,
    }
}

impl Precedence {
    /// The height of a level on the ladder.
    pub open spec fn rank(self) -> nat {
        match self {
            Precedence::Lowest => 0,
            Precedence::Assign => 1,
            Precedence::Or => 2,
            Precedence::And => 3,
            Precedence::Equality => 4,
            Precedence::Comparison => 5,
            Precedence::Term => 6,
            Precedence::Factor => 7,
            Precedence::Unary => 8,
            Precedence::Call => 9,
            Precedence::Primary => 10,
        }
    }

    /// Whether `self` stands strictly higher on the ladder than `floor`.
    pub fn binds_tighter_than(self, floor: Precedence) -> (result: bool)
        ensures
            result == (self.rank() > floor.rank()),
    {
        self.height() > floor.height()
    }

    fn height(self) -> (height: u8)
        ensures
            height == self.rank(),
    {
        match self {
            Precedence::Lowest => 0,
            Precedence::Assign => 1,
            Precedence::Or => 2,
            Precedence::And => 3,
            Precedence::Equality => 4,
            Precedence::Comparison => 5,
            Precedence::Term => 6,
            Precedence::Factor => 7,
            Precedence::Unary => 8,
            Precedence::Call => 9,
            Precedence::Primary => 10,
        }
    }
}

impl<'a> From<&'a TokenType> for Precedence {
    fn from(token: &'a TokenType) -> (precedence: Precedence) {
        match token {
            TokenType::Equal => Precedence::Assign,
            TokenType::BangEqual | TokenType::EqualEqual => Precedence::Equality,
            TokenType::LessThan
            | TokenType::LessThanEqual
            | TokenType::GreaterThan
            | TokenType::GreaterThanEqual => Precedence::Comparison,
            TokenType::Plus | TokenType::Minus => Precedence::Term,
            TokenType::Star | TokenType::Slash => Precedence::Factor,
            TokenType::Bang => Precedence::Unary,
            TokenType::LeftParen => Precedence::Call,
            TokenType::Dot => Precedence::Call,
            _ => Precedence::Lowest,
        }
    }
}

impl<'a> FromSpecImpl<&'a TokenType> for Precedence {
    open spec fn obeys_from_spec() -> bool {
        true
    }

    open spec fn from_spec(token: &'a TokenType) -> Precedence {
        precedence_of(*token)
    }
}

/// Parses an expression at the cursor.
pub fn parse(parser: &mut AstParser) -> (result: Result<Expr, ParserError>)
    ensures
        parsed_as(
            old(parser)@,
            final(parser)@,
            result,
            expression(old(parser)@.tokens, old(parser)@.position),
        ),
    decreases old(parser)@.tokens.len() - old(parser)@.position, 4int,
{
    parse_expr(parser, Precedence::Lowest)
}

fn parse_expr(parser: &mut AstParser, precedence: Precedence) -> (result: Result<
    Expr,
    ParserError,
>)
    ensures
        parsed_as(
            old(parser)@,
            final(parser)@,
            result,
            expression_above(old(parser)@.tokens, old(parser)@.position, precedence),
        ),
    decreases old(parser)@.tokens.len() - old(parser)@.position, 3int,
{
    let mut expr = parse_prefix(parser)?;
    loop
        invariant
            parser@.tokens == old(parser)@.tokens,
            advanced(parser@.tokens, old(parser)@.position, parser@.position),
            infix_chain(parser@.tokens, parser@.position, expr@, precedence) == expression_above(
                parser@.tokens,
                old(parser)@.position,
                precedence,
            ),
        ensures
            parser@.tokens == old(parser)@.tokens,
            advanced(parser@.tokens, old(parser)@.position, parser@.position),
            expression_above(parser@.tokens, old(parser)@.position, precedence) == Ok::<
                (ExprSpec, int),
                ParserError,
            >((expr@, parser@.position)),
        decreases parser@.tokens.len() - parser@.position,
    {
        let next_precedence = Precedence::from(&parser.peek_type());
        if !next_precedence.binds_tighter_than(precedence) {
            break ;
        }
        expr = parse_infix(parser, expr)?;
    }
    Ok(expr)
}

fn parse_prefix(parser: &mut AstParser) -> (result: Result<Expr, ParserError>)
    ensures
        parsed_as(
            old(parser)@,
            final(parser)@,
            result,
            prefix(old(parser)@.tokens, old(parser)@.position),
        ),
    decreases old(parser)@.tokens.len() - old(parser)@.position, 2int,
{
    match parser.peek_type() {
        TokenType::Number | TokenType::Identifier | TokenType::String => parse_primary(parser),
        TokenType::Bang | TokenType::Minus => parse_unary(parser),
        TokenType::LeftParen => parse_grouping(parser),
        TokenType::EOF => Err(ParserError::UnexpectedEOF),
        kind => Err(ParserError::UnsupportedConstruct(kind, parser.line())),
    }
}

fn parse_infix(parser: &mut AstParser, left: Expr) -> (result: Result<Expr, ParserError>)
    ensures
        parsed_as(
            old(parser)@,
            final(parser)@,
            result,
            infix(old(parser)@.tokens, old(parser)@.position, left@),
        ),
    decreases old(parser)@.tokens.len() - old(parser)@.position, 2int,
{
    match parser.peek_type() {
        TokenType::BangEqual
        | TokenType::EqualEqual
        | TokenType::LessThan
        | TokenType::LessThanEqual
        | TokenType::GreaterThan
        | TokenType::GreaterThanEqual
        | TokenType::Plus
        | TokenType::Minus
        | TokenType::Star
        | TokenType::Slash => parse_binary(parser, left),
        kind => Err(ParserError::UnsupportedConstruct(kind, parser.line())),
    }
}

fn parse_grouping(parser: &mut AstParser) -> (result: Result<Expr, ParserError>)
    ensures
        parsed_as(
            old(parser)@,
            final(parser)@,
            result,
            grouping(old(parser)@.tokens, old(parser)@.position),
        ),
    decreases old(parser)@.tokens.len() - old(parser)@.position, 1int,
{
    parser.expect(TokenType::LeftParen)?;
    let expr = parse_expr(parser, Precedence::Lowest)?;
    parser.expect(TokenType::RightParen)?;

    Ok(Expr::Grouping(GroupingExpr::new(Box::new(expr))))
}

fn parse_primary(parser: &mut AstParser) -> (result: Result<Expr, ParserError>)
    ensures
        parsed_as(
            old(parser)@,
            final(parser)@,
            result,
            primary(old(parser)@.tokens, old(parser)@.position),
        ),
    decreases old(parser)@.tokens.len() - old(parser)@.position, 1int,
{
    let token = parser.consume()?;

    match token.token_type {
        TokenType::Number => Ok(Expr::Literal(LiteralExpr::Number(token.source.to_owned()))),
        TokenType::Identifier => {
            let var = Variable::new(token.source.to_owned());

            Ok(
                if parser.match_(&TokenType::Equal) {
                    let initializer = parser.parse_expression_statement()?;

                    Expr::LetSet(LetSetExpr::new(var, Box::new(initializer)))
                } else {
                    Expr::LetGet(LetGetExpr::new(var))
                },
            )
        },
        kind => Err(ParserError::UnsupportedConstruct(kind, token.position.line)),
    }
}

fn parse_binary(parser: &mut AstParser, left: Expr) -> (result: Result<Expr, ParserError>)
    ensures
        parsed_as(
            old(parser)@,
            final(parser)@,
            result,
            binary(old(parser)@.tokens, old(parser)@.position, left@),
        ),
    decreases old(parser)@.tokens.len() - old(parser)@.position, 1int,
{
    let token = parser.consume()?;
    let precedence = Precedence::from(&token.token_type);
    let operator = match BinaryOperator::from_token(&token.token_type) {
        Some(operator) => operator,
        None => {
            return Err(ParserError::UnsupportedConstruct(token.token_type, token.position.line));
        },
    };
    let right = parse_expr(parser, precedence)?;
    Ok(Expr::Binary(BinaryExpr::new(operator, Box::new(left), Box::new(right))))
}

fn parse_unary(parser: &mut AstParser) -> (result: Result<Expr, ParserError>)
    ensures
        parsed_as(
            old(parser)@,
            final(parser)@,
            result,
            unary(old(parser)@.tokens, old(parser)@.position),
        ),
    decreases old(parser)@.tokens.len() - old(parser)@.position, 1int,
{
    let token = parser.consume()?;
    let operator = match UnaryOperator::from_token(&token.token_type) {
        Some(operator) => operator,
        None => {
            return Err(ParserError::UnsupportedConstruct(token.token_type, token.position.line));
        },
    };
    let right = parse_expr(parser, Precedence::Unary)?;
    Ok(Expr::Unary(UnaryExpr::new(operator, Box::new(right))))
}

} // verus!
