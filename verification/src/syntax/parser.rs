//! The token cursor and the statement parser: recursive descent, one
//! procedure for each production, told apart by the leading token.

use vstd::prelude::*;
use vstd::slice::*;
use vstd::string::*;
use crate::syntax::ast::{
    expr_views, lemma_expr_views_push, variable_views, BlockExpr, Expr, ExprSpec,
    FunctionDeclaration, FunctionExpr, LetAssignExpr, LiteralExpr, ModuleAst, ReturnExpr,
    Variable,
};
pub use crate::syntax::error::ParserError;
use crate::syntax::grammar::{
    advanced, block, block_statements, expect, expression, expression_statement,
    function_declaration, kind_at, let_declaration, line_at, module, module_from, parameters,
    return_statement, statement,
};
use crate::syntax::token::{token_views, Keyword, Token, TokenSpec, TokenType};

verus! {

/// A cursor over a token sequence: an index that only moves forward.
pub struct AstParser<'a> {
    tokens: &'a [Token<'a>],
    position: usize,
}

/// The mathematical value of a cursor: the values of its tokens and the
/// number of those that it has consumed.
pub struct Cursor {
    pub tokens: Seq<TokenSpec>,
    pub position: int,
}

impl<'a> View for AstParser<'a> {
    type V = Cursor;

    closed spec fn view(&self) -> Cursor {
        Cursor { tokens: token_views(self.tokens@), position: self.position as int }
    }
}

/// A call of a production ended as the grammar says: with the value and at
/// the position that the grammar yields from `before`, having consumed a
/// token, or with the failure that it yields.
pub open spec fn parsed_as(
    before: Cursor,
    after: Cursor,
    result: Result<Expr, ParserError>,
    yields: Result<(ExprSpec, int), ParserError>,
) -> bool {
    &&& after.tokens == before.tokens
    &&& match yields {
        Ok((value, next)) => {
            &&& result matches Ok(expr)
            &&& expr@ == value
            &&& after.position == next
            &&& advanced(before.tokens, before.position, next)
        },
        Err(error) => result == Err::<Expr, ParserError>(error),
    }
}

impl<'a> AstParser<'a> {
    /// A cursor at the first of `tokens`.
    pub fn new(tokens: &'a [Token<'a>]) -> (parser: Self)
        ensures
            parser@ == (Cursor { tokens: token_views(tokens@), position: 0 }),
    {
        AstParser { tokens, position: 0 }
    }

    /// Parses a whole token sequence: its statements, one after the other, up
    /// to the sentinel.
    pub fn parse(tokens: &'a [Token<'a>]) -> (result: Result<ModuleAst, ParserError>)
        ensures
            match result {
                Ok(ast) => module(token_views(tokens@)) == Ok::<Seq<ExprSpec>, ParserError>(ast@),
                Err(error) => module(token_views(tokens@)) == Err::<Seq<ExprSpec>, ParserError>(
                    error,
                ),
            },
    {
        let mut parser = AstParser::new(tokens);

        let mut exprs: Vec<Expr> = Vec::new();
        proof {
            assert(expr_views(exprs@) =~= Seq::<ExprSpec>::empty());
        }

        while !parser.is_eof()
            invariant
                parser@.tokens == token_views(tokens@),
                0 <= parser@.position,
                module_from(parser@.tokens, parser@.position, expr_views(exprs@)) == module(
                    parser@.tokens,
                ),
            decreases parser@.tokens.len() - parser@.position,
        {
            let expr = match parser.parse_top_level_expr() {
                Ok(expr) => expr,
                Err(error) => {
                    return Err(error);
                },
            };
            proof {
                lemma_expr_views_push(exprs@, expr);
            }
            exprs.push(expr);
        }

        Ok(ModuleAst::new(exprs))
    }

    fn parse_top_level_expr(&mut self) -> (result: Result<Expr, ParserError>)
        ensures
            parsed_as(
                old(self)@,
                final(self)@,
                result,
                statement(old(self)@.tokens, old(self)@.position),
            ),
        decreases old(self)@.tokens.len() - old(self)@.position, 8int,
    {
        match self.peek_type() {
            TokenType::Keyword(Keyword::Let) => self.declare_let(),
            TokenType::Keyword(Keyword::Def) => self.declare_def(),
            TokenType::Keyword(Keyword::Return) => self.parse_return(),
            _ => self.parse_expression_statement(),
        }
    }

    fn declare_let(&mut self) -> (result: Result<Expr, ParserError>)
        ensures
            parsed_as(
                old(self)@,
                final(self)@,
                result,
                let_declaration(old(self)@.tokens, old(self)@.position),
            ),
        decreases old(self)@.tokens.len() - old(self)@.position, 7int,
    {
        // Consume "let".
        self.expect(TokenType::Keyword(Keyword::Let))?;

        let ident = self.expect(TokenType::Identifier)?;
        let var = Variable::new(ident.source.to_owned());

        let initializer = if self.match_(&TokenType::Equal) {
            self.parse_expression_statement()?
        } else {
            self.expect(TokenType::Line)?;
            let nil = Expr::Literal(LiteralExpr::Nil);
            assert(nil@ == ExprSpec::Nil);
            nil
        };

        Ok(Expr::LetAssign(LetAssignExpr::new(var, Box::new(initializer))))
    }

    fn declare_def(&mut self) -> (result: Result<Expr, ParserError>)
        ensures
            parsed_as(
                old(self)@,
                final(self)@,
                result,
                function_declaration(old(self)@.tokens, old(self)@.position),
            ),
        decreases old(self)@.tokens.len() - old(self)@.position, 7int,
    {
        // Consume "def".
        self.expect(TokenType::Keyword(Keyword::Def))?;

        let ident = self.expect(TokenType::Identifier)?;
        let var = Variable::new(ident.source.to_owned());

        self.expect(TokenType::LeftParen)?;
        let ghost first = self@.position;

        let mut params: Vec<Variable> = Vec::new();
        proof {
            assert(variable_views(params@) =~= Seq::<Seq<char>>::empty());
        }
        while !self.check(&TokenType::RightParen) && !self.check(&TokenType::EOF)
            invariant_except_break
                parameters(self@.tokens, self@.position, variable_views(params@)) == parameters(
                    self@.tokens,
                    first,
                    Seq::empty(),
                ),
            invariant
                self@.tokens == old(self)@.tokens,
                first == old(self)@.position + 3,
                first <= self@.position <= self@.tokens.len(),
                0 <= old(self)@.position,
                kind_at(self@.tokens, first - 3) == TokenType::Keyword(Keyword::Def),
                kind_at(self@.tokens, first - 2) == TokenType::Identifier,
                kind_at(self@.tokens, first - 1) == TokenType::LeftParen,
            ensures
                parameters(self@.tokens, first, Seq::empty()) == Ok::<
                    (Seq<Seq<char>>, int),
                    ParserError,
                >((variable_views(params@), self@.position)),
            decreases self@.tokens.len() - self@.position,
        {
            let param = self.expect(TokenType::Identifier)?;

            let variable = Variable::new(param.source.to_owned());
            proof {
                assert(variable_views(params@.push(variable)) =~= variable_views(params@).push(
                    param@.lexeme,
                ));
            }
            params.push(variable);

            if !self.match_(&TokenType::Comma) {
                break ;
            }
        }

        self.expect(TokenType::RightParen)?;

        let body = self.parse_block()?;
        let fun_decl = FunctionDeclaration::new(params, body);

        Ok(Expr::Function(FunctionExpr::new(var, fun_decl)))
    }

    fn parse_return(&mut self) -> (result: Result<Expr, ParserError>)
        ensures
            parsed_as(
                old(self)@,
                final(self)@,
                result,
                return_statement(old(self)@.tokens, old(self)@.position),
            ),
        decreases old(self)@.tokens.len() - old(self)@.position, 7int,
    {
        // Consume "return".
        self.expect(TokenType::Keyword(Keyword::Return))?;

        let return_expr = if self.match_(&TokenType::Line) {
            None
        } else {
            Some(Box::new(self.parse_top_level_expr()?))
        };

        Ok(Expr::Return(ReturnExpr::new(return_expr)))
    }

    #[verifier::loop_isolation(false)]
    fn parse_block(&mut self) -> (result: Result<BlockExpr, ParserError>)
        ensures
            final(self)@.tokens == old(self)@.tokens,
            match block(old(self)@.tokens, old(self)@.position) {
                Ok((statements, next)) => {
                    &&& result matches Ok(body)
                    &&& body@ == statements
                    &&& final(self)@.position == next
                    &&& advanced(old(self)@.tokens, old(self)@.position, next)
                },
                Err(error) => result == Err::<BlockExpr, ParserError>(error),
            },
        decreases old(self)@.tokens.len() - old(self)@.position, 10int,
    {
        self.match_(&TokenType::Line);
        let ghost first = self@.position;

        let mut exprs: Vec<Expr> = Vec::new();
        proof {
            assert(expr_views(exprs@) =~= Seq::<ExprSpec>::empty());
        }

        while !self.check(&TokenType::Keyword(Keyword::End)) && !self.check(&TokenType::EOF)
            invariant
                self@.tokens == old(self)@.tokens,
                old(self)@.position <= first <= self@.position,
                block_statements(self@.tokens, self@.position, expr_views(exprs@))
                    == block_statements(self@.tokens, first, Seq::empty()),
            decreases self@.tokens.len() - self@.position,
        {
            let expr = self.parse_top_level_expr()?;
            proof {
                lemma_expr_views_push(exprs@, expr);
            }
            exprs.push(expr);
        }

        self.expect(TokenType::Keyword(Keyword::End))?;
        self.expect(TokenType::Line)?;

        Ok(BlockExpr::new(exprs))
    }

    /// Parses an expression and the terminator behind it.
    pub fn parse_expression_statement(&mut self) -> (result: Result<Expr, ParserError>)
        ensures
            parsed_as(
                old(self)@,
                final(self)@,
                result,
                expression_statement(old(self)@.tokens, old(self)@.position),
            ),
        decreases old(self)@.tokens.len() - old(self)@.position, 6int,
    {
        let expr = self.expression()?;
        self.expect(TokenType::Line)?;
        Ok(expr)
    }

    /// Parses an expression.
    pub fn expression(&mut self) -> (result: Result<Expr, ParserError>)
        ensures
            parsed_as(
                old(self)@,
                final(self)@,
                result,
                expression(old(self)@.tokens, old(self)@.position),
            ),
        decreases old(self)@.tokens.len() - old(self)@.position, 5int,
    {
        crate::syntax::expr_parser::parse(self)
    }

    /// Consumes the next token where it is of the kind `expect`, and fails
    /// with what stands there where it is not.
    pub fn expect(&mut self, expect: TokenType) -> (result: Result<Token<'a>, ParserError>)
        ensures
            final(self)@.tokens == old(self)@.tokens,
            match crate::syntax::grammar::expect(old(self)@.tokens, old(self)@.position, expect) {
                Ok(next) => {
                    &&& result matches Ok(token)
                    &&& token@ == old(self)@.tokens[old(self)@.position]
                    &&& final(self)@.position == next
                },
                Err(error) => result == Err::<Token<'a>, ParserError>(error) && final(self)@
                    == old(self)@,
            },
    {
        if self.check(&expect) {
            Ok(self.consume()?)
        } else {
            Err(ParserError::Expect(expect, self.peek_type(), self.line()))
        }
    }

    /// Consumes the next token if and only if it is of the kind `token_type`,
    /// and tells whether it is.
    pub fn match_(&mut self, token_type: &TokenType) -> (matched: bool)
        ensures
            matched == (kind_at(old(self)@.tokens, old(self)@.position) == *token_type),
            final(self)@.tokens == old(self)@.tokens,
            final(self)@.position == (if matched && old(self)@.position < old(self)@.tokens.len() {
                old(self)@.position + 1
            } else {
                old(self)@.position
            }),
    {
        if !self.check(token_type) {
            return false;
        }
        let _ = self.consume();
        true
    }

    fn check(&self, token_type: &TokenType) -> (result: bool)
        ensures
            result == (kind_at(self@.tokens, self@.position) == *token_type),
    {
        self.peek_type() == *token_type
    }

    /// Hands out the next token and moves behind it; fails where none is left.
    pub fn consume(&mut self) -> (result: Result<Token<'a>, ParserError>)
        ensures
            final(self)@.tokens == old(self)@.tokens,
            match result {
                Ok(token) => {
                    &&& 0 <= old(self)@.position < old(self)@.tokens.len()
                    &&& token@ == old(self)@.tokens[old(self)@.position]
                    &&& final(self)@.position == old(self)@.position + 1
                },
                Err(error) => {
                    &&& error == ParserError::UnexpectedEOF
                    &&& old(self)@.position >= old(self)@.tokens.len()
                    &&& final(self)@.position == old(self)@.position
                },
            },
    {
        if self.position < self.tokens.len() {
            let token = self.tokens[self.position];
            self.position += 1;
            Ok(token)
        } else {
            Err(ParserError::UnexpectedEOF)
        }
    }

    /// The kind of the next token; the sentinel's kind where none is left.
    pub fn peek_type(&self) -> (kind: TokenType)
        ensures
            kind == kind_at(self@.tokens, self@.position),
    {
        match self.peek() {
            Some(token) => token.token_type,
            None => TokenType::EOF,
        }
    }

    fn peek(&self) -> (result: Option<&Token<'a>>)
        ensures
            match result {
                Some(token) => 0 <= self@.position < self@.tokens.len() && token@
                    == self@.tokens[self@.position],
                None => self@.position >= self@.tokens.len(),
            },
    {
        if self.position < self.tokens.len() {
            Some(&self.tokens[self.position])
        } else {
            None
        }
    }

    /// The line that a failure at the cursor is reported on.
    pub(crate) fn line(&self) -> (line: usize)
        ensures
            line == line_at(self@.tokens, self@.position),
    {
        if self.position < self.tokens.len() {
            self.tokens[self.position].position.line
        } else if self.tokens.len() > 0 {
            self.tokens[self.tokens.len() - 1].position.line
        } else {
            1
        }
    }

    /// Whether the input is used up: the next token is the sentinel, or none is left.
    pub fn is_eof(&self) -> (result: bool)
        ensures
            result == (kind_at(self@.tokens, self@.position) == TokenType::EOF),
    {
        self.check(&TokenType::EOF)
    }
}

} // verus!
