//! What holds of the grammar on every token sequence.

use vstd::prelude::*;
use crate::syntax::ast::{binary_operator, unary_operator, ExprSpec};
use crate::syntax::error::ParserError;
use crate::syntax::expr_parser::{precedence_of, Precedence};
use crate::syntax::grammar::{
    advanced, binary, block, block_statements, expect, expression, expression_above,
    expression_statement, grouping, infix, infix_chain, is_infix_operator, kind_at,
    lemma_parameters_end, line_at, module, module_from, parameters, prefix, primary, statement,
    unary,
};
use crate::syntax::token::{Keyword, TokenSpec, TokenType};

verus! {

/// A declaration with an initializer, `let name = <expression>` and the
/// terminator, is a `LetAssign` of the name and of what the expression
/// parses to, and ends behind the terminator.
pub proof fn lemma_let_with_initializer(
    tokens: Seq<TokenSpec>,
    at: int,
    initializer: ExprSpec,
    end: int,
)
    requires
        0 <= at,
        kind_at(tokens, at) == TokenType::Keyword(Keyword::Let),
        kind_at(tokens, at + 1) == TokenType::Identifier,
        kind_at(tokens, at + 2) == TokenType::Equal,
        expression(tokens, at + 3) == Ok::<(ExprSpec, int), ParserError>((initializer, end)),
        kind_at(tokens, end) == TokenType::Line,
    ensures
        statement(tokens, at) == Ok::<(ExprSpec, int), ParserError>(
            (ExprSpec::LetAssign(tokens[at + 1].lexeme, Box::new(initializer)), end + 1),
        ),
{
    assert(expect(tokens, at, TokenType::Keyword(Keyword::Let)) == Ok::<int, ParserError>(at + 1));
    assert(expect(tokens, at + 1, TokenType::Identifier) == Ok::<int, ParserError>(at + 2));
    assert(expect(tokens, end, TokenType::Line) == Ok::<int, ParserError>(end + 1));
    assert(expression_statement(tokens, at + 3) == Ok::<(ExprSpec, int), ParserError>(
        (initializer, end + 1),
    ));
}

/// A source unit that is one declaration with an initializer parses to that
/// one `LetAssign`.
pub proof fn lemma_module_of_let_with_initializer(
    tokens: Seq<TokenSpec>,
    initializer: ExprSpec,
    end: int,
)
    requires
        kind_at(tokens, 0) == TokenType::Keyword(Keyword::Let),
        kind_at(tokens, 1) == TokenType::Identifier,
        kind_at(tokens, 2) == TokenType::Equal,
        expression(tokens, 3) == Ok::<(ExprSpec, int), ParserError>((initializer, end)),
        kind_at(tokens, end) == TokenType::Line,
        kind_at(tokens, end + 1) == TokenType::EOF,
    ensures
        module(tokens) == Ok::<Seq<ExprSpec>, ParserError>(
            seq![ExprSpec::LetAssign(tokens[1].lexeme, Box::new(initializer))],
        ),
{
    lemma_let_with_initializer(tokens, 0, initializer, end);
    let declaration = ExprSpec::LetAssign(tokens[1].lexeme, Box::new(initializer));
    assert(Seq::<ExprSpec>::empty().push(declaration) =~= seq![declaration]);
    assert(module_from(tokens, end + 1, seq![declaration]) == Ok::<Seq<ExprSpec>, ParserError>(
        seq![declaration],
    ));
}

/// A declaration without an initializer, `let name` and the terminator, is a
/// `LetAssign` of the name and nil, and ends behind the terminator.
pub proof fn lemma_let_without_initializer(tokens: Seq<TokenSpec>, at: int)
    requires
        0 <= at,
        kind_at(tokens, at) == TokenType::Keyword(Keyword::Let),
        kind_at(tokens, at + 1) == TokenType::Identifier,
        kind_at(tokens, at + 2) == TokenType::Line,
    ensures
        statement(tokens, at) == Ok::<(ExprSpec, int), ParserError>(
            (ExprSpec::LetAssign(tokens[at + 1].lexeme, Box::new(ExprSpec::Nil)), at + 3),
        ),
{
    assert(expect(tokens, at, TokenType::Keyword(Keyword::Let)) == Ok::<int, ParserError>(at + 1));
    assert(expect(tokens, at + 1, TokenType::Identifier) == Ok::<int, ParserError>(at + 2));
    assert(expect(tokens, at + 2, TokenType::Line) == Ok::<int, ParserError>(at + 3));
}

/// A source unit that is one declaration without an initializer parses to
/// that one `LetAssign` of nil.
pub proof fn lemma_module_of_let_without_initializer(tokens: Seq<TokenSpec>)
    requires
        kind_at(tokens, 0) == TokenType::Keyword(Keyword::Let),
        kind_at(tokens, 1) == TokenType::Identifier,
        kind_at(tokens, 2) == TokenType::Line,
        kind_at(tokens, 3) == TokenType::EOF,
    ensures
        module(tokens) == Ok::<Seq<ExprSpec>, ParserError>(
            seq![ExprSpec::LetAssign(tokens[1].lexeme, Box::new(ExprSpec::Nil))],
        ),
{
    lemma_let_without_initializer(tokens, 0);
    let declaration = ExprSpec::LetAssign(tokens[1].lexeme, Box::new(ExprSpec::Nil));
    assert(Seq::<ExprSpec>::empty().push(declaration) =~= seq![declaration]);
    assert(module_from(tokens, 3, seq![declaration]) == Ok::<Seq<ExprSpec>, ParserError>(
        seq![declaration],
    ));
}

proof fn lemma_primary_advances(tokens: Seq<TokenSpec>, at: int)
    requires
        0 <= at,
    ensures
        primary(tokens, at) matches Ok((_, next)) ==> advanced(tokens, at, next),
    decreases tokens.len() - at, 1int,
{
    if at < tokens.len() && tokens[at].kind == TokenType::Identifier && kind_at(tokens, at + 1)
        == TokenType::Equal {
        lemma_expression_statement_advances(tokens, at + 2);
    }
}

proof fn lemma_unary_advances(tokens: Seq<TokenSpec>, at: int)
    requires
        0 <= at,
    ensures
        unary(tokens, at) matches Ok((_, next)) ==> advanced(tokens, at, next),
    decreases tokens.len() - at, 1int,
{
    if at < tokens.len() && unary_operator(tokens[at].kind) is Some {
        lemma_expression_above_advances(tokens, at + 1, Precedence::Unary);
    }
}

proof fn lemma_grouping_advances(tokens: Seq<TokenSpec>, at: int)
    requires
        0 <= at,
    ensures
        grouping(tokens, at) matches Ok((_, next)) ==> advanced(tokens, at, next),
    decreases tokens.len() - at, 1int,
{
    if expect(tokens, at, TokenType::LeftParen) is Ok {
        lemma_expression_above_advances(tokens, at + 1, Precedence::Lowest);
    }
}

proof fn lemma_prefix_advances(tokens: Seq<TokenSpec>, at: int)
    requires
        0 <= at,
    ensures
        prefix(tokens, at) matches Ok((_, next)) ==> advanced(tokens, at, next),
    decreases tokens.len() - at, 2int,
{
    lemma_primary_advances(tokens, at);
    lemma_unary_advances(tokens, at);
    lemma_grouping_advances(tokens, at);
}

proof fn lemma_infix_chain_ends(tokens: Seq<TokenSpec>, at: int, left: ExprSpec, floor: Precedence)
    requires
        0 <= at <= tokens.len(),
    ensures
        infix_chain(tokens, at, left, floor) matches Ok((_, next)) ==> at <= next <= tokens.len(),
    decreases tokens.len() - at, 3int,
{
    if precedence_of(kind_at(tokens, at)).rank() > floor.rank() {
        if let Ok((folded, next)) = infix(tokens, at, left) {
            if advanced(tokens, at, next) {
                lemma_infix_chain_ends(tokens, next, folded, floor);
            }
        }
    }
}

/// An expression that parses consumes a token.
pub proof fn lemma_expression_above_advances(tokens: Seq<TokenSpec>, at: int, floor: Precedence)
    requires
        0 <= at,
    ensures
        expression_above(tokens, at, floor) matches Ok((_, next)) ==> advanced(tokens, at, next),
    decreases tokens.len() - at, 3int,
{
    lemma_prefix_advances(tokens, at);
    if let Ok((left, next)) = prefix(tokens, at) {
        lemma_infix_chain_ends(tokens, next, left, floor);
    }
}

proof fn lemma_expression_statement_advances(tokens: Seq<TokenSpec>, at: int)
    requires
        0 <= at,
    ensures
        expression_statement(tokens, at) matches Ok((_, next)) ==> advanced(tokens, at, next),
    decreases tokens.len() - at, 5int,
{
    lemma_expression_above_advances(tokens, at, Precedence::Lowest);
}

proof fn lemma_block_statements_end(tokens: Seq<TokenSpec>, at: int, parsed: Seq<ExprSpec>)
    requires
        0 <= at <= tokens.len(),
    ensures
        block_statements(tokens, at, parsed) matches Ok((_, next)) ==> at <= next <= tokens.len(),
    decreases tokens.len() - at, 8int,
{
    if kind_at(tokens, at) != TokenType::Keyword(Keyword::End) && kind_at(tokens, at)
        != TokenType::EOF {
        if let Ok((value, next)) = statement(tokens, at) {
            if advanced(tokens, at, next) {
                lemma_block_statements_end(tokens, next, parsed.push(value));
            }
        }
    }
}

proof fn lemma_block_advances(tokens: Seq<TokenSpec>, at: int)
    requires
        0 <= at,
    ensures
        block(tokens, at) matches Ok((_, next)) ==> advanced(tokens, at, next),
    decreases tokens.len() - at, 9int,
{
    let first = if kind_at(tokens, at) == TokenType::Line {
        at + 1
    } else {
        at
    };
    if first <= tokens.len() {
        lemma_block_statements_end(tokens, first, Seq::empty());
    }
}

/// A statement that parses consumes a token: the measure by which the parser
/// terminates, and the reason why the grammar's demand that every repeated
/// production has advanced is never what makes it fail.
pub proof fn lemma_statement_advances(tokens: Seq<TokenSpec>, at: int)
    requires
        0 <= at,
    ensures
        statement(tokens, at) matches Ok((_, next)) ==> advanced(tokens, at, next),
    decreases tokens.len() - at, 7int,
{
    match kind_at(tokens, at) {
        TokenType::Keyword(Keyword::Let) => {
            if kind_at(tokens, at + 1) == TokenType::Identifier && kind_at(tokens, at + 2)
                == TokenType::Equal {
                lemma_expression_statement_advances(tokens, at + 3);
            }
        },
        TokenType::Keyword(Keyword::Def) => {
            if kind_at(tokens, at + 1) == TokenType::Identifier && kind_at(tokens, at + 2)
                == TokenType::LeftParen {
                lemma_parameters_end(tokens, at + 3, Seq::empty());
                if let Ok((names, closing)) = parameters(tokens, at + 3, Seq::empty()) {
                    if expect(tokens, closing, TokenType::RightParen) is Ok {
                        lemma_block_advances(tokens, closing + 1);
                    }
                }
            }
        },
        TokenType::Keyword(Keyword::Return) => {
            if kind_at(tokens, at + 1) != TokenType::Line {
                lemma_statement_advances(tokens, at + 1);
            }
        },
        _ => {
            lemma_expression_statement_advances(tokens, at);
        },
    }
}

/// An operand that is one token stands at `at`: a number, or a name that no
/// `=` follows.
pub open spec fn is_operand_at(tokens: Seq<TokenSpec>, at: int) -> bool {
    kind_at(tokens, at) == TokenType::Number || (kind_at(tokens, at) == TokenType::Identifier
        && kind_at(tokens, at + 1) != TokenType::Equal)
}

/// The value of the operand at `at`.
pub open spec fn operand_at(tokens: Seq<TokenSpec>, at: int) -> ExprSpec {
    if tokens[at].kind == TokenType::Number {
        ExprSpec::Number(tokens[at].lexeme)
    } else {
        ExprSpec::LetGet(tokens[at].lexeme)
    }
}

proof fn lemma_operand(tokens: Seq<TokenSpec>, at: int, floor: Precedence)
    requires
        0 <= at,
        is_operand_at(tokens, at),
        precedence_of(kind_at(tokens, at + 1)).rank() <= floor.rank(),
    ensures
        expression_above(tokens, at, floor) == Ok::<(ExprSpec, int), ParserError>(
            (operand_at(tokens, at), at + 1),
        ),
{
    assert(primary(tokens, at) == Ok::<(ExprSpec, int), ParserError>(
        (operand_at(tokens, at), at + 1),
    ));
    assert(prefix(tokens, at) == primary(tokens, at));
    assert(infix_chain(tokens, at + 1, operand_at(tokens, at), floor) == Ok::<
        (ExprSpec, int),
        ParserError,
    >((operand_at(tokens, at), at + 1)));
}

/// Precedence and associativity: of two operators between three operands,
/// the second takes the middle operand where it binds strictly tighter than
/// the first, and otherwise the first does, so that operators of one level
/// group to the left.
pub proof fn lemma_two_operators(tokens: Seq<TokenSpec>, at: int)
    requires
        0 <= at,
        is_operand_at(tokens, at),
        is_infix_operator(kind_at(tokens, at + 1)),
        is_operand_at(tokens, at + 2),
        is_infix_operator(kind_at(tokens, at + 3)),
        is_operand_at(tokens, at + 4),
        precedence_of(kind_at(tokens, at + 5)) == Precedence::Lowest,
    ensures
        binary_operator(kind_at(tokens, at + 1)) is Some,
        binary_operator(kind_at(tokens, at + 3)) is Some,
        expression(tokens, at) == Ok::<(ExprSpec, int), ParserError>(
            (
                if precedence_of(kind_at(tokens, at + 3)).rank() > precedence_of(
                    kind_at(tokens, at + 1),
                ).rank() {
                    ExprSpec::Binary(
                        binary_operator(kind_at(tokens, at + 1))->0,
                        Box::new(operand_at(tokens, at)),
                        Box::new(
                            ExprSpec::Binary(
                                binary_operator(kind_at(tokens, at + 3))->0,
                                Box::new(operand_at(tokens, at + 2)),
                                Box::new(operand_at(tokens, at + 4)),
                            ),
                        ),
                    )
                } else {
                    ExprSpec::Binary(
                        binary_operator(kind_at(tokens, at + 3))->0,
                        Box::new(
                            ExprSpec::Binary(
                                binary_operator(kind_at(tokens, at + 1))->0,
                                Box::new(operand_at(tokens, at)),
                                Box::new(operand_at(tokens, at + 2)),
                            ),
                        ),
                        Box::new(operand_at(tokens, at + 4)),
                    )
                },
                at + 5,
            ),
        ),
{
    let first_kind = kind_at(tokens, at + 1);
    let second_kind = kind_at(tokens, at + 3);
    let first = precedence_of(first_kind);
    let second = precedence_of(second_kind);
    let first_operator = binary_operator(first_kind)->0;
    let second_operator = binary_operator(second_kind)->0;
    let a = operand_at(tokens, at);
    let b = operand_at(tokens, at + 2);
    let c = operand_at(tokens, at + 4);
    assert(first.rank() > 0 && second.rank() > 0);
    assert(primary(tokens, at) == Ok::<(ExprSpec, int), ParserError>((a, at + 1)));
    assert(prefix(tokens, at) == primary(tokens, at));
    assert(primary(tokens, at + 2) == Ok::<(ExprSpec, int), ParserError>((b, at + 3)));
    assert(prefix(tokens, at + 2) == primary(tokens, at + 2));
    // The last operand, whatever floor it is parsed above.
    lemma_operand(tokens, at + 4, second);
    if second.rank() > first.rank() {
        let inner = ExprSpec::Binary(second_operator, Box::new(b), Box::new(c));
        assert(binary(tokens, at + 3, b) == Ok::<(ExprSpec, int), ParserError>((inner, at + 5)));
        assert(infix(tokens, at + 3, b) == binary(tokens, at + 3, b));
        assert(infix_chain(tokens, at + 5, inner, first) == Ok::<(ExprSpec, int), ParserError>(
            (inner, at + 5),
        ));
        assert(infix_chain(tokens, at + 3, b, first) == Ok::<(ExprSpec, int), ParserError>(
            (inner, at + 5),
        ));
        assert(expression_above(tokens, at + 2, first) == Ok::<(ExprSpec, int), ParserError>(
            (inner, at + 5),
        ));
        let outer = ExprSpec::Binary(first_operator, Box::new(a), Box::new(inner));
        assert(binary(tokens, at + 1, a) == Ok::<(ExprSpec, int), ParserError>((outer, at + 5)));
        assert(infix(tokens, at + 1, a) == binary(tokens, at + 1, a));
        assert(infix_chain(tokens, at + 5, outer, Precedence::Lowest) == Ok::<
            (ExprSpec, int),
            ParserError,
        >((outer, at + 5)));
        assert(infix_chain(tokens, at + 1, a, Precedence::Lowest) == Ok::<
            (ExprSpec, int),
            ParserError,
        >((outer, at + 5)));
    } else {
        assert(infix_chain(tokens, at + 3, b, first) == Ok::<(ExprSpec, int), ParserError>(
            (b, at + 3),
        ));
        assert(expression_above(tokens, at + 2, first) == Ok::<(ExprSpec, int), ParserError>(
            (b, at + 3),
        ));
        let inner = ExprSpec::Binary(first_operator, Box::new(a), Box::new(b));
        assert(binary(tokens, at + 1, a) == Ok::<(ExprSpec, int), ParserError>((inner, at + 3)));
        assert(infix(tokens, at + 1, a) == binary(tokens, at + 1, a));
        let outer = ExprSpec::Binary(second_operator, Box::new(inner), Box::new(c));
        assert(binary(tokens, at + 3, inner) == Ok::<(ExprSpec, int), ParserError>(
            (outer, at + 5),
        ));
        assert(infix(tokens, at + 3, inner) == binary(tokens, at + 3, inner));
        assert(infix_chain(tokens, at + 5, outer, Precedence::Lowest) == Ok::<
            (ExprSpec, int),
            ParserError,
        >((outer, at + 5)));
        assert(infix_chain(tokens, at + 3, inner, Precedence::Lowest) == Ok::<
            (ExprSpec, int),
            ParserError,
        >((outer, at + 5)));
        assert(infix_chain(tokens, at + 1, a, Precedence::Lowest) == Ok::<
            (ExprSpec, int),
            ParserError,
        >((outer, at + 5)));
    }
}

/// Grouping: an expression between parentheses is that expression, wrapped,
/// and whatever stands around it is parsed around the group.
pub proof fn lemma_grouping_wraps(tokens: Seq<TokenSpec>, at: int, inner: ExprSpec, closing: int)
    requires
        0 <= at,
        kind_at(tokens, at) == TokenType::LeftParen,
        expression(tokens, at + 1) == Ok::<(ExprSpec, int), ParserError>((inner, closing)),
        kind_at(tokens, closing) == TokenType::RightParen,
    ensures
        prefix(tokens, at) == Ok::<(ExprSpec, int), ParserError>(
            (ExprSpec::Grouping(Box::new(inner)), closing + 1),
        ),
        forall|floor: Precedence|
            #[trigger] expression_above(tokens, at, floor) == infix_chain(
                tokens,
                closing + 1,
                ExprSpec::Grouping(Box::new(inner)),
                floor,
            ),
{
    assert(expect(tokens, at, TokenType::LeftParen) == Ok::<int, ParserError>(at + 1));
    assert(expect(tokens, closing, TokenType::RightParen) == Ok::<int, ParserError>(closing + 1));
    assert(grouping(tokens, at) == Ok::<(ExprSpec, int), ParserError>(
        (ExprSpec::Grouping(Box::new(inner)), closing + 1),
    ));
    lemma_expression_above_advances(tokens, at + 1, Precedence::Lowest);
}

/// A group that nothing closes fails, with what stands where the `)` is
/// required: the sentinel, where the input has ended.
pub proof fn lemma_open_grouping_fails(tokens: Seq<TokenSpec>, at: int, inner: ExprSpec, end: int)
    requires
        0 <= at,
        kind_at(tokens, at) == TokenType::LeftParen,
        expression(tokens, at + 1) == Ok::<(ExprSpec, int), ParserError>((inner, end)),
        kind_at(tokens, end) != TokenType::RightParen,
    ensures
        prefix(tokens, at) == Err::<(ExprSpec, int), ParserError>(
            ParserError::Expect(TokenType::RightParen, kind_at(tokens, end), line_at(tokens, end)),
        ),
{
    assert(expect(tokens, at, TokenType::LeftParen) == Ok::<int, ParserError>(at + 1));
    assert(grouping(tokens, at) == Err::<(ExprSpec, int), ParserError>(
        ParserError::Expect(TokenType::RightParen, kind_at(tokens, end), line_at(tokens, end)),
    ));
}

/// The statements of a block stop before `end` or where the input ends.
pub proof fn lemma_block_statements_stop(tokens: Seq<TokenSpec>, at: int, parsed: Seq<ExprSpec>)
    ensures
        block_statements(tokens, at, parsed) matches Ok((_, stop)) ==> kind_at(tokens, stop)
            == TokenType::Keyword(Keyword::End) || kind_at(tokens, stop) == TokenType::EOF,
    decreases tokens.len() - at,
{
    if kind_at(tokens, at) != TokenType::Keyword(Keyword::End) && kind_at(tokens, at)
        != TokenType::EOF {
        if let Ok((value, next)) = statement(tokens, at) {
            if advanced(tokens, at, next) {
                lemma_block_statements_stop(tokens, next, parsed.push(value));
            }
        }
    }
}

/// A block whose statements run to the end of the input fails, and the
/// failure names `end` as what was required there. A block parses only where
/// its statements stop before `end`.
pub proof fn lemma_block_without_end_fails(tokens: Seq<TokenSpec>, at: int)
    ensures
        ({
            let first = if kind_at(tokens, at) == TokenType::Line {
                at + 1
            } else {
                at
            };
            block_statements(tokens, first, Seq::empty()) matches Ok((_, stop)) ==> {
                &&& kind_at(tokens, stop) == TokenType::EOF ==> block(tokens, at) == Err::<
                    (Seq<ExprSpec>, int),
                    ParserError,
                >(
                    ParserError::Expect(
                        TokenType::Keyword(Keyword::End),
                        TokenType::EOF,
                        line_at(tokens, stop),
                    ),
                )
                &&& block(tokens, at) is Ok ==> kind_at(tokens, stop) == TokenType::Keyword(
                    Keyword::End,
                )
            }
        }),
{
    let first = if kind_at(tokens, at) == TokenType::Line {
        at + 1
    } else {
        at
    };
    lemma_block_statements_stop(tokens, first, Seq::empty());
}

} // verus!
