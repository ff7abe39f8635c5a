use script_syntax::syntax::ast::{BinaryOperator, UnaryOperator};
use script_syntax::syntax::error::ParserError;
use script_syntax::syntax::expr_parser::Precedence;
use script_syntax::syntax::lexer::Lexer;
use script_syntax::syntax::parser::AstParser;
use script_syntax::syntax::token::{Keyword, Position, Token, TokenType};

const ALL_KINDS: [TokenType; 31] = [
    TokenType::LeftParen,
    TokenType::RightParen,
    TokenType::LeftBrace,
    TokenType::RightBrace,
    TokenType::LeftBracket,
    TokenType::RightBracket,
    TokenType::Comma,
    TokenType::Dot,
    TokenType::Minus,
    TokenType::Plus,
    TokenType::Star,
    TokenType::Slash,
    TokenType::Bang,
    TokenType::BangEqual,
    TokenType::Equal,
    TokenType::EqualEqual,
    TokenType::LessThan,
    TokenType::LessThanEqual,
    TokenType::GreaterThan,
    TokenType::GreaterThanEqual,
    TokenType::Line,
    TokenType::String,
    TokenType::Number,
    TokenType::Keyword(Keyword::Let),
    TokenType::Keyword(Keyword::Def),
    TokenType::Keyword(Keyword::Return),
    TokenType::Keyword(Keyword::End),
    TokenType::Keyword(Keyword::For),
    TokenType::Keyword(Keyword::While),
    TokenType::Identifier,
    TokenType::EOF,
];

#[test]
fn cursor_walks_forward() {
    let tokens = Lexer::tokenize("let x\n").unwrap();
    let mut parser = AstParser::new(&tokens);
    assert_eq!(parser.peek_type(), TokenType::Keyword(Keyword::Let));
    assert!(!parser.is_eof());
    assert!(!parser.match_(&TokenType::Identifier));
    assert_eq!(parser.peek_type(), TokenType::Keyword(Keyword::Let));
    assert!(parser.match_(&TokenType::Keyword(Keyword::Let)));
    assert_eq!(
        parser.expect(TokenType::Identifier),
        Ok(Token::new(TokenType::Identifier, "x", Position::new(4, 5, 1)))
    );
    assert_eq!(
        parser.expect(TokenType::Equal),
        Err(ParserError::Expect(TokenType::Equal, TokenType::Line, 1))
    );
    assert_eq!(parser.peek_type(), TokenType::Line);
    assert_eq!(
        parser.consume(),
        Ok(Token::new(TokenType::Line, "\n", Position::new(5, 6, 1)))
    );
    assert!(parser.is_eof());
    assert_eq!(
        parser.expect(TokenType::Line),
        Err(ParserError::Expect(TokenType::Line, TokenType::EOF, 2))
    );
    assert_eq!(
        parser.expect(TokenType::EOF),
        Ok(Token::new(TokenType::EOF, "", Position::new(6, 6, 2)))
    );
}

#[test]
fn exhausted_cursor_reads_as_the_sentinel() {
    let tokens = vec![Token::new(TokenType::Identifier, "x", Position::new(0, 1, 7))];
    let mut parser = AstParser::new(&tokens);
    assert!(parser.consume().is_ok());
    assert_eq!(parser.peek_type(), TokenType::EOF);
    assert!(parser.is_eof());
    assert_eq!(parser.consume(), Err(ParserError::UnexpectedEOF));
    assert_eq!(parser.expect(TokenType::EOF), Err(ParserError::UnexpectedEOF));
    assert_eq!(
        parser.expect(TokenType::Identifier),
        Err(ParserError::Expect(TokenType::Identifier, TokenType::EOF, 7))
    );
    assert!(parser.match_(&TokenType::EOF));
    assert!(!parser.match_(&TokenType::Identifier));
    assert_eq!(parser.expression(), Err(ParserError::UnexpectedEOF));

    let mut empty = AstParser::new(&[]);
    assert!(empty.is_eof());
    assert_eq!(
        empty.expect(TokenType::Line),
        Err(ParserError::Expect(TokenType::Line, TokenType::EOF, 1))
    );
    assert_eq!(empty.parse_expression_statement(), Err(ParserError::UnexpectedEOF));
}

#[test]
fn expression_statement_needs_its_terminator() {
    let tokens = Lexer::tokenize("a + 1\nb").unwrap();
    let mut parser = AstParser::new(&tokens);
    assert!(parser.parse_expression_statement().is_ok());
    assert_eq!(parser.peek_type(), TokenType::Identifier);
    assert_eq!(
        parser.parse_expression_statement(),
        Err(ParserError::Expect(TokenType::Line, TokenType::EOF, 2))
    );
}

#[test]
fn binary_operator_from_token() {
    for kind in ALL_KINDS {
        let expect = match kind {
            TokenType::Minus => Some(BinaryOperator::Subtract),
            TokenType::Plus => Some(BinaryOperator::Add),
            TokenType::Star => Some(BinaryOperator::Multiply),
            TokenType::Slash => Some(BinaryOperator::Divide),
            TokenType::BangEqual => Some(BinaryOperator::BangEqual),
            TokenType::Equal | TokenType::EqualEqual => Some(BinaryOperator::Equal),
            TokenType::LessThan => Some(BinaryOperator::LessThan),
            TokenType::LessThanEqual => Some(BinaryOperator::LessThanEqual),
            TokenType::GreaterThan => Some(BinaryOperator::GreaterThan),
            TokenType::GreaterThanEqual => Some(BinaryOperator::GreaterThanEqual),
            _ => None,
        };
        assert_eq!(BinaryOperator::from_token(&kind), expect);
    }
}

#[test]
fn unary_operator_from_token() {
    for kind in ALL_KINDS {
        let expect = match kind {
            TokenType::Minus => Some(UnaryOperator::Negate),
            TokenType::Bang => Some(UnaryOperator::Not),
            _ => None,
        };
        assert_eq!(UnaryOperator::from_token(&kind), expect);
    }
}

#[test]
fn precedence_of_each_token() {
    for kind in ALL_KINDS {
        let expect = match kind {
            TokenType::Equal => Precedence::Assign,
            TokenType::BangEqual | TokenType::EqualEqual => Precedence::Equality,
            TokenType::LessThan
            | TokenType::LessThanEqual
            | TokenType::GreaterThan
            | TokenType::GreaterThanEqual => Precedence::Comparison,
            TokenType::Plus | TokenType::Minus => Precedence::Term,
            TokenType::Star | TokenType::Slash => Precedence::Factor,
            TokenType::Bang => Precedence::Unary,
            TokenType::LeftParen | TokenType::Dot => Precedence::Call,
            _ => Precedence::Lowest,
        };
        assert_eq!(Precedence::from(&kind), expect);
    }
}

#[test]
fn the_ladder_is_ordered_as_it_is_written() {
    let ladder = [
        Precedence::Lowest,
        Precedence::Assign,
        Precedence::Or,
        Precedence::And,
        Precedence::Equality,
        Precedence::Comparison,
        Precedence::Term,
        Precedence::Factor,
        Precedence::Unary,
        Precedence::Call,
        Precedence::Primary,
    ];
    for (i, low) in ladder.iter().enumerate() {
        for (j, high) in ladder.iter().enumerate() {
            assert_eq!(high.binds_tighter_than(*low), j > i);
            assert_eq!(high > low, j > i);
        }
    }
}
