use std::str::FromStr;

use script_syntax::syntax::error::SyntaxError;
use script_syntax::syntax::lexer::Lexer;
use script_syntax::syntax::token::{Keyword, Position, Token, TokenType};

fn kinds(source: &str) -> Vec<TokenType> {
    Lexer::tokenize(source).unwrap().iter().map(|token| token.token_type).collect()
}

fn lexemes(source: &str) -> Vec<&str> {
    Lexer::tokenize(source).unwrap().iter().map(|token| token.source).collect()
}

#[test]
fn parse_number() {
    let expect = vec![
        Token::new(TokenType::Number, "2", Position::new(0, 1, 1)),
        Token::new(TokenType::Line, "\n", Position::new(1, 2, 1)),
        Token::new(TokenType::Number, "10", Position::new(10, 12, 2)),
        Token::new(TokenType::Line, "\n", Position::new(12, 13, 2)),
        Token::new(TokenType::Number, "3.33", Position::new(21, 25, 3)),
        Token::new(TokenType::Line, "\n", Position::new(25, 26, 3)),
        Token::new(TokenType::EOF, "", Position::new(34, 34, 4)),
    ];

    let source = r#"2
        10
        3.33
        "#;

    let actual = Lexer::tokenize(source).unwrap();
    assert_eq!(expect, actual);
}

#[test]
fn empty_source_is_only_the_sentinel() {
    let tokens = Lexer::tokenize("").unwrap();
    assert_eq!(tokens, vec![Token::new(TokenType::EOF, "", Position::new(0, 0, 1))]);
}

#[test]
fn blank_source_is_only_the_sentinel() {
    let tokens = Lexer::tokenize(" \t\r ").unwrap();
    assert_eq!(tokens, vec![Token::new(TokenType::EOF, "", Position::new(4, 4, 1))]);
}

#[test]
fn a_numeral_is_one_number_with_the_same_value() {
    for source in ["0", "7", "42", "2.5", "3.33", "10.0", "0.125", "123456789.987654321"] {
        let tokens = Lexer::tokenize(source).unwrap();
        assert_eq!(
            tokens,
            vec![
                Token::new(TokenType::Number, source, Position::new(0, source.len(), 1)),
                Token::new(TokenType::EOF, "", Position::new(source.len(), source.len(), 1)),
            ]
        );
        let value: f64 = tokens[0].source.parse().unwrap();
        assert_eq!(value, source.parse::<f64>().unwrap());
    }
    let tokens = Lexer::tokenize("2.5").unwrap();
    assert_eq!(tokens[0].source.parse::<f64>().unwrap(), 2.5);
}

#[test]
fn the_sentinel_stands_last_and_only_there() {
    let sources = [
        "",
        "\n",
        "\n\n\n",
        "let x = 1\n",
        "def f(a, b)\n  return a + b\nend\n",
        "@ # $ % ^ & | ~ ? : ; \\ `",
        "\u{00e9}t\u{00e9} = \u{4f60}\u{597d}",
        "'closed' \"also closed\"",
        "1.2.3...",
        "((((",
        "\u{1F600}",
    ];
    for source in sources {
        let tokens = Lexer::tokenize(source).unwrap();
        let sentinels = tokens.iter().filter(|token| token.token_type == TokenType::EOF).count();
        assert_eq!(sentinels, 1);
        let last = tokens.last().unwrap();
        assert_eq!(last.token_type, TokenType::EOF);
        assert_eq!(last.source, "");
        assert_eq!(last.position.start, source.len());
        assert_eq!(last.position.end, source.len());
    }
}

#[test]
fn a_point_belongs_to_a_numeral_only_before_a_digit() {
    assert_eq!(kinds("5."), vec![TokenType::Number, TokenType::Dot, TokenType::EOF]);
    assert_eq!(lexemes("5."), vec!["5", ".", ""]);
    assert_eq!(kinds(".5"), vec![TokenType::Dot, TokenType::Number, TokenType::EOF]);
    assert_eq!(
        kinds("1.2.3"),
        vec![TokenType::Number, TokenType::Dot, TokenType::Number, TokenType::EOF]
    );
    assert_eq!(lexemes("1.2.3"), vec!["1.2", ".", "3", ""]);
    assert_eq!(
        kinds("7.abs"),
        vec![TokenType::Number, TokenType::Dot, TokenType::Identifier, TokenType::EOF]
    );
    assert_eq!(lexemes("12.50x"), vec!["12.50", "x", ""]);
}

#[test]
fn punctuation_and_operators() {
    assert_eq!(
        kinds("( ) { } [ ] , . - + * /"),
        vec![
            TokenType::LeftParen,
            TokenType::RightParen,
            TokenType::LeftBrace,
            TokenType::RightBrace,
            TokenType::LeftBracket,
            TokenType::RightBracket,
            TokenType::Comma,
            TokenType::Dot,
            TokenType::Minus,
            TokenType::Plus,
            TokenType::Star,
            TokenType::Slash,
            TokenType::EOF,
        ]
    );
    assert_eq!(
        kinds("! != = == < <= > >="),
        vec![
            TokenType::Bang,
            TokenType::BangEqual,
            TokenType::Equal,
            TokenType::EqualEqual,
            TokenType::LessThan,
            TokenType::LessThanEqual,
            TokenType::GreaterThan,
            TokenType::GreaterThanEqual,
            TokenType::EOF,
        ]
    );
    assert_eq!(
        kinds("===!=<==>"),
        vec![
            TokenType::EqualEqual,
            TokenType::Equal,
            TokenType::BangEqual,
            TokenType::LessThanEqual,
            TokenType::Equal,
            TokenType::GreaterThan,
            TokenType::EOF,
        ]
    );
    assert_eq!(lexemes("a<=b"), vec!["a", "<=", "b", ""]);
}

#[test]
fn keywords_and_identifiers() {
    assert_eq!(
        kinds("let def return end for while lets x_1"),
        vec![
            TokenType::Keyword(Keyword::Let),
            TokenType::Keyword(Keyword::Def),
            TokenType::Keyword(Keyword::Return),
            TokenType::Keyword(Keyword::End),
            TokenType::Keyword(Keyword::For),
            TokenType::Keyword(Keyword::While),
            TokenType::Identifier,
            TokenType::Identifier,
            TokenType::Number,
            TokenType::EOF,
        ]
    );
    assert_eq!(lexemes("lets x_1"), vec!["lets", "x_", "1", ""]);
    assert_eq!(kinds("Let END"), vec![TokenType::Identifier, TokenType::Identifier, TokenType::EOF]);
}

#[test]
fn keyword_from_str() {
    assert_eq!(Keyword::from_str("let"), Ok(Keyword::Let));
    assert_eq!(Keyword::from_str("def"), Ok(Keyword::Def));
    assert_eq!(Keyword::from_str("return"), Ok(Keyword::Return));
    assert_eq!(Keyword::from_str("end"), Ok(Keyword::End));
    assert_eq!(Keyword::from_str("for"), Ok(Keyword::For));
    assert_eq!(Keyword::from_str("while"), Ok(Keyword::While));
    assert_eq!("while".parse::<Keyword>(), Ok(Keyword::While));
    for word in ["", "le", "lett", "Let", "fun", "retrun", "whale", "nil", "ends"] {
        assert_eq!(Keyword::from_str(word), Err(()));
        assert_eq!(Keyword::lookup(word.as_bytes()), None);
    }
    assert_eq!(Keyword::lookup(b"end"), Some(Keyword::End));
}

#[test]
fn string_literals_run_to_the_matching_quote() {
    let tokens = Lexer::tokenize("'it \"is\"' \"don't\"").unwrap();
    assert_eq!(
        tokens,
        vec![
            Token::new(TokenType::String, "'it \"is\"'", Position::new(0, 9, 1)),
            Token::new(TokenType::String, "\"don't\"", Position::new(10, 17, 1)),
            Token::new(TokenType::EOF, "", Position::new(17, 17, 1)),
        ]
    );
    assert_eq!(lexemes("''"), vec!["''", ""]);
}

#[test]
fn line_breaks_inside_a_string_count() {
    let tokens = Lexer::tokenize("\"a\nb\n\" x\ny").unwrap();
    assert_eq!(
        tokens,
        vec![
            Token::new(TokenType::String, "\"a\nb\n\"", Position::new(0, 6, 1)),
            Token::new(TokenType::Identifier, "x", Position::new(7, 8, 3)),
            Token::new(TokenType::Line, "\n", Position::new(8, 9, 3)),
            Token::new(TokenType::Identifier, "y", Position::new(9, 10, 4)),
            Token::new(TokenType::EOF, "", Position::new(10, 10, 4)),
        ]
    );
}

#[test]
fn unterminated_string_is_an_error() {
    assert_eq!(Lexer::tokenize("let s = \"abc"), Err(SyntaxError::UnterminatedString));
    assert_eq!(Lexer::tokenize("'abc\""), Err(SyntaxError::UnterminatedString));
    assert_eq!(Lexer::tokenize("\""), Err(SyntaxError::UnterminatedString));
    assert_eq!(Lexer::tokenize("'a' 'b"), Err(SyntaxError::UnterminatedString));
    assert_ne!(Lexer::tokenize("'"), Err(SyntaxError::UnexpectedEOF));
}

#[test]
fn offsets_count_bytes() {
    let tokens = Lexer::tokenize("\u{00e9}t\u{00e9} = \u{4f60}\u{597d}\u{3000}+").unwrap();
    assert_eq!(
        tokens,
        vec![
            Token::new(TokenType::Identifier, "\u{00e9}t\u{00e9}", Position::new(0, 5, 1)),
            Token::new(TokenType::Equal, "=", Position::new(6, 7, 1)),
            Token::new(TokenType::Identifier, "\u{4f60}\u{597d}", Position::new(8, 14, 1)),
            Token::new(TokenType::Plus, "+", Position::new(17, 18, 1)),
            Token::new(TokenType::EOF, "", Position::new(18, 18, 1)),
        ]
    );
}

#[test]
fn every_lexeme_is_the_slice_at_its_position() {
    let source = "def area(w, h)\n  let s = 'w\u{00d7}h'\n  return w * h >= 1.5\nend\n";
    let tokens = Lexer::tokenize(source).unwrap();
    let mut line = 1;
    let mut previous_end = 0;
    for token in &tokens {
        assert_eq!(token.source, &source[token.position.start..token.position.end]);
        assert!(previous_end <= token.position.start);
        assert!(source[previous_end..token.position.start].chars().all(char::is_whitespace));
        line += source[previous_end..token.position.start].matches('\n').count();
        assert_eq!(token.position.line, line);
        line += token.source.matches('\n').count();
        previous_end = token.position.end;
    }
    assert_eq!(previous_end, source.len());
}

#[test]
fn blanks_are_the_white_space_characters_but_the_line_break() {
    let mut blanks = 0;
    for code in 0..=0x10FFFF_u32 {
        let Some(c) = char::from_u32(code) else {
            continue;
        };
        let text = format!("a{}b", c);
        let result = Lexer::tokenize(&text);
        if c.is_whitespace() && c != '\n' {
            blanks += 1;
            let tokens = result.unwrap();
            assert_eq!(tokens.len(), 3);
            assert_eq!(tokens[0].source, "a");
            assert_eq!(tokens[1].source, "b");
            assert_eq!(tokens[1].position.start, 1 + c.len_utf8());
        } else if c == '\n' {
            assert_eq!(kinds(&text), vec![
                TokenType::Identifier,
                TokenType::Line,
                TokenType::Identifier,
                TokenType::EOF,
            ]);
        } else if c == '"' || c == '\'' {
            assert_eq!(result, Err(SyntaxError::UnterminatedString));
        } else {
            let tokens = result.unwrap();
            assert!(tokens.iter().all(|token| token.position.end - token.position.start
                == token.source.len()));
            let joined: String = tokens.iter().map(|token| token.source).collect();
            assert_eq!(joined, text);
        }
    }
    assert_eq!(blanks, 24);
}

#[test]
fn every_number_lexeme_is_a_numeral() {
    let source = "1.2.3 4. .5 6.70x8 9..10 (11.0) 12.\n13";
    let numbers: Vec<&str> = Lexer::tokenize(source)
        .unwrap()
        .iter()
        .filter(|token| token.token_type == TokenType::Number)
        .map(|token| token.source)
        .collect();
    assert_eq!(numbers, vec!["1.2", "3", "4", "5", "6.70", "8", "9", "10", "11.0", "12", "13"]);
    for numeral in numbers {
        assert!(numeral.parse::<f64>().is_ok());
        assert!(numeral.starts_with(|c: char| c.is_ascii_digit()));
        assert!(numeral.ends_with(|c: char| c.is_ascii_digit()));
        assert!(numeral.matches('.').count() <= 1);
    }
}
