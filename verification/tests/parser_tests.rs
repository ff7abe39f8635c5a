use script_syntax::syntax::ast::{
    BinaryExpr, BinaryOperator, BlockExpr, Expr, FunctionDeclaration, FunctionExpr, GroupingExpr,
    LetAssignExpr, LetGetExpr, LetSetExpr, LiteralExpr, ModuleAst, ReturnExpr, UnaryExpr,
    UnaryOperator, Variable,
};
use script_syntax::syntax::error::ParserError;
use script_syntax::syntax::lexer::Lexer;
use script_syntax::syntax::parser::AstParser;
use script_syntax::syntax::token::{Keyword, TokenType};

fn number(numeral: &str, value: f64) -> Expr {
    assert_eq!(numeral.parse::<f64>().unwrap(), value);
    Expr::Literal(LiteralExpr::Number(numeral.to_string()))
}

fn get(name: &str) -> Expr {
    Expr::LetGet(LetGetExpr::new(Variable::new(name.to_string())))
}

fn binary(operator: BinaryOperator, lhs: Expr, rhs: Expr) -> Expr {
    Expr::Binary(BinaryExpr::new(operator, Box::new(lhs), Box::new(rhs)))
}

fn parse_source(source: &str) -> Result<ModuleAst, ParserError> {
    let tokens = Lexer::tokenize(source).unwrap();
    AstParser::parse(&tokens)
}

fn parse_expression(source: &str) -> Result<Expr, ParserError> {
    let tokens = Lexer::tokenize(source).unwrap();
    let mut parser = AstParser::new(&tokens);
    parser.expression()
}

#[test]
fn parse_let_assign() {
    let expect = ModuleAst::new(vec![Expr::LetAssign(LetAssignExpr::new(
        Variable::new("x".to_string()),
        Box::new(binary(BinaryOperator::Add, number("1", 1.0), get("y"))),
    ))]);
    assert_eq!(parse_source("let x = 1 + y\n").unwrap(), expect);
}

#[test]
fn parse_def() {
    let expected_exprs = vec![Expr::Function(FunctionExpr::new(
        Variable::new("double".to_string()),
        FunctionDeclaration::new(
            vec![Variable::new("x".to_string())],
            BlockExpr::new(vec![Expr::Return(ReturnExpr::new(Some(Box::new(
                Expr::Binary(BinaryExpr::new(
                    BinaryOperator::Multiply,
                    Box::new(Expr::LetGet(LetGetExpr::new(Variable::new(
                        "x".to_string(),
                    )))),
                    Box::new(number("2", 2.0)),
                )),
            ))))]),
        ),
    ))];
    let expect = ModuleAst::new(expected_exprs);

    let source = r#"def double(x)
            return x * 2
        end
        "#;
    let mut tokens = Lexer::tokenize(source).unwrap();
    let actual = AstParser::parse(&mut tokens).unwrap();

    assert_eq!(expect, actual);
}

#[test]
fn let_without_initializer_is_nil() {
    let expect = ModuleAst::new(vec![Expr::LetAssign(LetAssignExpr::new(
        Variable::new("name".to_string()),
        Box::new(Expr::Literal(LiteralExpr::Nil)),
    ))]);
    assert_eq!(parse_source("let name\n").unwrap(), expect);
}

#[test]
fn multiplication_binds_tighter_than_addition() {
    let expect = binary(
        BinaryOperator::Add,
        number("1", 1.0),
        binary(BinaryOperator::Multiply, number("2", 2.0), number("3", 3.0)),
    );
    assert_eq!(parse_expression("1 + 2 * 3").unwrap(), expect);
}

#[test]
fn subtraction_chains_leftward() {
    let expect = binary(
        BinaryOperator::Subtract,
        binary(BinaryOperator::Subtract, number("1", 1.0), number("2", 2.0)),
        number("3", 3.0),
    );
    assert_eq!(parse_expression("1 - 2 - 3").unwrap(), expect);
}

#[test]
fn grouping_overrides_precedence() {
    let expect = binary(
        BinaryOperator::Multiply,
        Expr::Grouping(GroupingExpr::new(Box::new(binary(
            BinaryOperator::Add,
            number("1", 1.0),
            number("2", 2.0),
        )))),
        number("3", 3.0),
    );
    assert_eq!(parse_expression("(1 + 2) * 3").unwrap(), expect);
}

#[test]
fn comparison_and_equality_levels() {
    let expect = binary(
        BinaryOperator::Equal,
        binary(BinaryOperator::LessThan, get("a"), binary(BinaryOperator::Add, get("b"), get("c"))),
        binary(BinaryOperator::GreaterThanEqual, get("d"), get("e")),
    );
    assert_eq!(parse_expression("a < b + c == d >= e").unwrap(), expect);
    let expect = binary(
        BinaryOperator::BangEqual,
        binary(BinaryOperator::LessThanEqual, get("a"), get("b")),
        binary(BinaryOperator::GreaterThan, get("c"), binary(BinaryOperator::Divide, get("d"), get("e"))),
    );
    assert_eq!(parse_expression("a <= b != c > d / e").unwrap(), expect);
}

#[test]
fn unary_operators_bind_tighter_than_binary() {
    let expect = binary(
        BinaryOperator::Subtract,
        Expr::Unary(UnaryExpr::new(UnaryOperator::Negate, Box::new(number("1", 1.0)))),
        Expr::Unary(UnaryExpr::new(
            UnaryOperator::Not,
            Box::new(Expr::Unary(UnaryExpr::new(UnaryOperator::Negate, Box::new(get("x"))))),
        )),
    );
    assert_eq!(parse_expression("-1 - !-x").unwrap(), expect);
}

#[test]
fn unterminated_grouping_fails() {
    assert_eq!(parse_source("let x = ("), Err(ParserError::UnexpectedEOF));
    assert_eq!(
        parse_source("let x = (1"),
        Err(ParserError::Expect(TokenType::RightParen, TokenType::EOF, 1))
    );
}

#[test]
fn def_without_end_names_the_end_keyword() {
    assert_eq!(
        parse_source("def f(a, b)\n    return a + b\n"),
        Err(ParserError::Expect(TokenType::Keyword(Keyword::End), TokenType::EOF, 3))
    );
}

#[test]
fn assignment_value_is_an_expression_statement() {
    let expect = ModuleAst::new(vec![Expr::LetSet(LetSetExpr::new(
        Variable::new("x".to_string()),
        Box::new(number("1.5", 1.5)),
    ))]);
    assert_eq!(parse_source("x = 1.5\n\n").unwrap(), expect);
    assert_eq!(
        parse_source("x = 1.5\n"),
        Err(ParserError::Expect(TokenType::Line, TokenType::EOF, 2))
    );
}

#[test]
fn reserved_constructs_are_unsupported() {
    assert_eq!(
        parse_source("f(1)\n"),
        Err(ParserError::UnsupportedConstruct(TokenType::LeftParen, 1))
    );
    assert_eq!(
        parse_source("\"text\"\n"),
        Err(ParserError::UnsupportedConstruct(TokenType::String, 1))
    );
    assert_eq!(
        parse_source("1\nwhile\n"),
        Err(ParserError::UnsupportedConstruct(TokenType::Keyword(Keyword::While), 2))
    );
    assert_eq!(
        parse_source("a.b\n"),
        Err(ParserError::UnsupportedConstruct(TokenType::Dot, 1))
    );
}

#[test]
fn return_without_value_and_empty_parameters() {
    let expect = ModuleAst::new(vec![Expr::Function(FunctionExpr::new(
        Variable::new("f".to_string()),
        FunctionDeclaration::new(
            vec![],
            BlockExpr::new(vec![Expr::Return(ReturnExpr::new(None))]),
        ),
    ))]);
    assert_eq!(parse_source("def f()\nreturn\nend\n").unwrap(), expect);
}

#[test]
fn parameters_may_end_with_a_comma() {
    let expect = ModuleAst::new(vec![Expr::Function(FunctionExpr::new(
        Variable::new("f".to_string()),
        FunctionDeclaration::new(
            vec![Variable::new("a".to_string()), Variable::new("b".to_string())],
            BlockExpr::new(vec![]),
        ),
    ))]);
    assert_eq!(parse_source("def f(a, b,)\nend\n").unwrap(), expect);
    assert_eq!(
        parse_source("def f(a b)\nend\n"),
        Err(ParserError::Expect(TokenType::RightParen, TokenType::Identifier, 1))
    );
}

#[test]
fn empty_token_sequence_is_an_empty_module() {
    assert_eq!(AstParser::parse(&[]).unwrap(), ModuleAst::new(vec![]));
    assert_eq!(parse_source("").unwrap(), ModuleAst::new(vec![]));
}

#[test]
fn function_declaration_with_a_return() {
    let expect = ModuleAst::new(vec![Expr::Function(FunctionExpr::new(
        Variable::new("double".to_string()),
        FunctionDeclaration::new(
            vec![Variable::new("x".to_string())],
            BlockExpr::new(vec![Expr::Return(ReturnExpr::new(Some(Box::new(binary(
                BinaryOperator::Multiply,
                get("x"),
                number("2", 2.0),
            )))))]),
        ),
    ))]);
    assert_eq!(parse_source("def double(x)\n    return x * 2\nend\n").unwrap(), expect);
    assert_eq!(
        parse_source("def double(x)\n    return x * 2\nend"),
        Err(ParserError::Expect(TokenType::Line, TokenType::EOF, 3))
    );
}

#[test]
fn statements_follow_each_other() {
    let expect = ModuleAst::new(vec![
        Expr::LetAssign(LetAssignExpr::new(
            Variable::new("a".to_string()),
            Box::new(Expr::Literal(LiteralExpr::Nil)),
        )),
        Expr::LetAssign(LetAssignExpr::new(
            Variable::new("b".to_string()),
            Box::new(number("2", 2.0)),
        )),
        binary(BinaryOperator::Add, get("a"), get("b")),
    ]);
    assert_eq!(parse_source("let a\nlet b = 2\na + b\n").unwrap(), expect);
}

#[test]
fn a_failure_yields_no_tree() {
    assert_eq!(
        parse_source("let a = 1\nlet = 2\n"),
        Err(ParserError::Expect(TokenType::Identifier, TokenType::Equal, 2))
    );
    assert_eq!(
        parse_source("let a = 1\n\nlet b = 2\n"),
        Err(ParserError::UnsupportedConstruct(TokenType::Line, 2))
    );
    assert_eq!(
        parse_source("1 + \n"),
        Err(ParserError::UnsupportedConstruct(TokenType::Line, 1))
    );
    assert_eq!(
        parse_source("a = = 1\n"),
        Err(ParserError::UnsupportedConstruct(TokenType::Equal, 1))
    );
    assert_eq!(
        parse_source("1 = 2\n"),
        Err(ParserError::UnsupportedConstruct(TokenType::Equal, 1))
    );
    assert_eq!(
        parse_source("1 ! 2\n"),
        Err(ParserError::UnsupportedConstruct(TokenType::Bang, 1))
    );
}

#[test]
fn nested_functions_and_blocks() {
    let inner = Expr::Function(FunctionExpr::new(
        Variable::new("g".to_string()),
        FunctionDeclaration::new(
            vec![],
            BlockExpr::new(vec![Expr::Return(ReturnExpr::new(Some(Box::new(Expr::Return(
                ReturnExpr::new(None),
            )))))]),
        ),
    ));
    let expect = ModuleAst::new(vec![Expr::Function(FunctionExpr::new(
        Variable::new("f".to_string()),
        FunctionDeclaration::new(
            vec![Variable::new("a".to_string())],
            BlockExpr::new(vec![inner, get("a")]),
        ),
    ))]);
    assert_eq!(
        parse_source("def f(a)\n  def g()\n    return return\n  end\n  a\nend\n").unwrap(),
        expect
    );
}
