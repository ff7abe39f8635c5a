//! The syntax tree: the closed set of expression nodes, each the one owner
//! of its children, and the mathematical value of each.

use vstd::prelude::*;
use crate::syntax::token::TokenType;

verus! {

/// A name. Its identity is its text.
#[derive(PartialEq, Debug)]
pub struct Variable {
    pub name: String,
}

impl View for Variable {
    type V = Seq<char>;

    open spec fn view(&self) -> Seq<char> {
        self.name@
    }
}

impl Variable {
    pub fn new(name: String) -> (variable: Self)
        ensures
            variable.name == name,
    {
        Variable { name }
    }
}

/// A literal: a number, held as the text of its numeral, or nil.
#[derive(PartialEq, Debug)]
pub enum LiteralExpr {
    Number(String),
    Nil,
}

#[derive(PartialEq, Debug)]
pub struct GroupingExpr {
    pub expr: Box<Expr>,
}

impl GroupingExpr {
    pub fn new(expr: Box<Expr>) -> (grouping: Self)
        ensures
            grouping.expr == expr,
    {
        GroupingExpr { expr }
    }
}

#[derive(PartialEq, Eq, Debug, Clone, Copy, Structural)]
pub enum BinaryOperator {
    Equal,
    BangEqual,
    GreaterThan,
    GreaterThanEqual,
    LessThan,
    LessThanEqual,
    Subtract,
    Add,
    Divide,
    Multiply,
}

/// The binary operator that a token stands for. Both `=` and `==` stand for
/// `Equal`.
pub open spec fn binary_operator(kind: TokenType) -> Option<BinaryOperator> {
    match kind {
        TokenType::Minus => Some(BinaryOperator::Subtract),
        TokenType::Plus => Some(BinaryOperator::Add),
        TokenType::Star => Some(BinaryOperator::Multiply),
        TokenType::Slash => Some(BinaryOperator::Divide),
        TokenType::BangEqual => Some(BinaryOperator::BangEqual),
        TokenType::Equal => Some(BinaryOperator::Equal),
        TokenType::EqualEqual => Some(BinaryOperator::Equal),
        TokenType::LessThan => Some(BinaryOperator::LessThan),
        TokenType::LessThanEqual => Some(BinaryOperator::LessThanEqual),
        TokenType::GreaterThan => Some(BinaryOperator::GreaterThan),
        TokenType::GreaterThanEqual => Some(BinaryOperator::GreaterThanEqual),
        _ => None,
    }
}

impl BinaryOperator {
    pub fn from_token(token_type: &TokenType) -> (operator: Option<BinaryOperator>)
        ensures
            operator == binary_operator(*token_type),
    {
        let op = match token_type {
            TokenType::Minus => BinaryOperator::Subtract,
            TokenType::Plus => BinaryOperator::Add,
            TokenType::Star => BinaryOperator::Multiply,
            TokenType::Slash => BinaryOperator::Divide,
            TokenType::BangEqual => BinaryOperator::BangEqual,
            TokenType::Equal => BinaryOperator::Equal,
            TokenType::EqualEqual => BinaryOperator::Equal,
            TokenType::LessThan => BinaryOperator::LessThan,
            TokenType::LessThanEqual => BinaryOperator::LessThanEqual,
            TokenType::GreaterThan => BinaryOperator::GreaterThan,
            TokenType::GreaterThanEqual => BinaryOperator::GreaterThanEqual,
            _ => {
                return None;
            },
        };

        Some(op)
    }
}

#[derive(PartialEq, Debug)]
pub struct BinaryExpr {
    pub lhs: Box<Expr>,
    pub rhs: Box<Expr>,
    pub operator: BinaryOperator,
}

impl BinaryExpr {
    pub fn new(operator: BinaryOperator, lhs: Box<Expr>, rhs: Box<Expr>) -> (binary: BinaryExpr)
        ensures
            binary.operator == operator,
            binary.lhs == lhs,
            binary.rhs == rhs,
    {
        BinaryExpr { operator, lhs, rhs }
    }
}

#[derive(PartialEq, Eq, Debug, Clone, Copy, Structural)]
pub enum UnaryOperator {
    Negate,
    Not,
}

/// The unary operator that a token stands for.
pub open spec fn unary_operator(kind: TokenType) -> Option<UnaryOperator> {
    match kind {
        TokenType::Minus => Some(UnaryOperator::Negate),
        TokenType::Bang => Some(UnaryOperator::Not),
        _ => None,
    }
}

impl UnaryOperator {
    pub fn from_token(token_type: &TokenType) -> (operator: Option<UnaryOperator>)
        ensures
            operator == unary_operator(*token_type),
    {
        Some(
            match token_type {
                TokenType::Minus => UnaryOperator::Negate,
                TokenType::Bang => UnaryOperator::Not,
                _ => {
                    return None;
                },
            },
        )
    }
}

#[derive(PartialEq, Debug)]
pub struct UnaryExpr {
    pub operator: UnaryOperator,
    pub expr: Box<Expr>,
}

impl UnaryExpr {
    pub fn new(operator: UnaryOperator, expr: Box<Expr>) -> (unary: UnaryExpr)
        ensures
            unary.operator == operator,
            unary.expr == expr,
    {
        UnaryExpr { operator, expr }
    }
}

/// A declaration that binds a new name.
#[derive(PartialEq, Debug)]
pub struct LetAssignExpr {
    pub variable: Variable,
    pub initializer: Box<Expr>,
}

impl LetAssignExpr {
    pub fn new(variable: Variable, initializer: Box<Expr>) -> (declaration: Self)
        ensures
            declaration.variable == variable,
            declaration.initializer == initializer,
    {
        LetAssignExpr { variable, initializer }
    }
}

/// A read of a name.
#[derive(PartialEq, Debug)]
pub struct LetGetExpr {
    pub variable: Variable,
}

impl LetGetExpr {
    pub fn new(variable: Variable) -> (read: Self)
        ensures
            read.variable == variable,
    {
        LetGetExpr { variable }
    }
}

/// An assignment to a name that exists.
#[derive(PartialEq, Debug)]
pub struct LetSetExpr {
    pub variable: Variable,
    pub initializer: Box<Expr>,
}

impl LetSetExpr {
    pub fn new(variable: Variable, initializer: Box<Expr>) -> (assignment: Self)
        ensures
            assignment.variable == variable,
            assignment.initializer == initializer,
    {
        LetSetExpr { variable, initializer }
    }
}

#[derive(PartialEq, Debug)]
pub struct FunctionDeclaration {
    pub parameters: Vec<Variable>,
    pub body: BlockExpr,
}

impl FunctionDeclaration {
    pub fn new(parameters: Vec<Variable>, body: BlockExpr) -> (declaration: Self)
        ensures
            declaration.parameters == parameters,
            declaration.body == body,
    {
        FunctionDeclaration { parameters, body }
    }
}

#[derive(PartialEq, Debug)]
pub struct FunctionExpr {
    pub variable: Variable,
    pub declaration: FunctionDeclaration,
}

impl FunctionExpr {
    pub fn new(variable: Variable, declaration: FunctionDeclaration) -> (function: Self)
        ensures
            function.variable == variable,
            function.declaration == declaration,
    {
        FunctionExpr { variable, declaration }
    }
}

#[derive(PartialEq, Debug)]
pub struct BlockExpr {
    pub exprs: Vec<Expr>,
}

impl BlockExpr {
    pub fn new(exprs: Vec<Expr>) -> (block: Self)
        ensures
            block.exprs == exprs,
    {
        BlockExpr { exprs }
    }
}

#[derive(PartialEq, Debug)]
pub struct ReturnExpr {
    pub expr: Option<Box<Expr>>,
}

impl ReturnExpr {
    pub fn new(expr: Option<Box<Expr>>) -> (statement: Self)
        ensures
            statement.expr == expr,
    {
        ReturnExpr { expr }
    }
}

#[derive(PartialEq, Debug)]
pub enum Expr {
    Literal(LiteralExpr),
    Grouping(GroupingExpr),
    Binary(BinaryExpr),
    Unary(UnaryExpr),
    LetAssign(LetAssignExpr),
    LetGet(LetGetExpr),
    LetSet(LetSetExpr),
    Function(FunctionExpr),
    Block(BlockExpr),
    Return(ReturnExpr),
}

/// One parsed source unit: its top-level expressions, in order.
#[derive(PartialEq, Debug)]
pub struct ModuleAst {
    pub exprs: Vec<Expr>,
}

/// The mathematical value of an expression: the same tree, with texts for
/// strings and sequences for vectors.
pub enum ExprSpec {
    /// A number literal, by the text of its numeral.
    Number(Seq<char>),
    Nil,
    Grouping(Box<ExprSpec>),
    Binary(BinaryOperator, Box<ExprSpec>, Box<ExprSpec>),
    Unary(UnaryOperator, Box<ExprSpec>),
    /// `LetAssign(name, initializer)`
    LetAssign(Seq<char>, Box<ExprSpec>),
    /// `LetGet(name)`
    LetGet(Seq<char>),
    /// `LetSet(name, value)`
    LetSet(Seq<char>, Box<ExprSpec>),
    /// `Function(name, parameters, body)`
    Function(Seq<char>, Seq<Seq<char>>, Seq<ExprSpec>),
    Block(Seq<ExprSpec>),
    Return(Option<Box<ExprSpec>>),
}

/// The value of an expression.
pub open spec fn expr_view(expr: Expr) -> ExprSpec
    decreases expr,
{
    match expr {
        Expr::Literal(LiteralExpr::Number(numeral)) => ExprSpec::Number(numeral@),
        Expr::Literal(LiteralExpr::Nil) => ExprSpec::Nil,
        Expr::Grouping(grouping) => ExprSpec::Grouping(Box::new(expr_view(*grouping.expr))),
        Expr::Binary(binary) => ExprSpec::Binary(
            binary.operator,
            Box::new(expr_view(*binary.lhs)),
            Box::new(expr_view(*binary.rhs)),
        ),
        Expr::Unary(unary) => ExprSpec::Unary(unary.operator, Box::new(expr_view(*unary.expr))),
        Expr::LetAssign(declaration) => ExprSpec::LetAssign(
            declaration.variable@,
            Box::new(expr_view(*declaration.initializer)),
        ),
        Expr::LetGet(read) => ExprSpec::LetGet(read.variable@),
        Expr::LetSet(assignment) => ExprSpec::LetSet(
            assignment.variable@,
            Box::new(expr_view(*assignment.initializer)),
        ),
        Expr::Function(function) => ExprSpec::Function(
            function.variable@,
            variable_views(function.declaration.parameters@),
            expr_views(function.declaration.body.exprs@),
        ),
        Expr::Block(block) => ExprSpec::Block(expr_views(block.exprs@)),
        Expr::Return(statement) => ExprSpec::Return(
            match statement.expr {
                Some(value) => Some(Box::new(expr_view(*value))),
                None => None,
            },
        ),
    }
}

/// The values of a run of expressions, in order.
pub open spec fn expr_views(exprs: Seq<Expr>) -> Seq<ExprSpec>
    decreases exprs,
{
    Seq::new(
        exprs.len(),
        |i: int|
            if 0 <= i < exprs.len() {
                expr_view(exprs[i])
            } else {
                ExprSpec::Nil
            },
    )
}

/// The names of a run of variables, in order.
pub open spec fn variable_views(variables: Seq<Variable>) -> Seq<Seq<char>> {
    variables.map_values(|variable: Variable| variable@)
}

impl View for Expr {
    type V = ExprSpec;

    open spec fn view(&self) -> ExprSpec {
        expr_view(*self)
    }
}

impl View for BlockExpr {
    type V = Seq<ExprSpec>;

    open spec fn view(&self) -> Seq<ExprSpec> {
        expr_views(self.exprs@)
    }
}

impl View for ModuleAst {
    type V = Seq<ExprSpec>;

    open spec fn view(&self) -> Seq<ExprSpec> {
        expr_views(self.exprs@)
    }
}

impl ModuleAst {
    pub fn new(exprs: Vec<Expr>) -> (module: Self)
        ensures
            module.exprs == exprs,
    {
        ModuleAst { exprs }
    }
}

/// Appending an expression appends its value.
pub proof fn lemma_expr_views_push(exprs: Seq<Expr>, expr: Expr)
    ensures
        expr_views(exprs.push(expr)) == expr_views(exprs).push(expr@),
{
    assert(expr_views(exprs.push(expr)) =~= expr_views(exprs).push(expr@));
}

} // verus!
