//! The abstract syntax tree, and the operator table of the parser.
use vstd::prelude::*;

verus! {

/// A binary operator.
#[derive(Debug, Copy, Clone, PartialEq, Eq, Structural)]
pub enum BinOpKind {
    Add,
    Sub,
    Mul,
    Div,
    LogicalAnd,
    LogicalOr,
}

impl BinOpKind {
    /// The left and the right binding power of the operator. An operator with
    /// higher powers binds tighter; the right power is the higher of the two,
    /// so operators of one tier group to the left.
    pub open spec fn binding_power(self) -> (u8, u8) {
        match self {
            BinOpKind::Add | BinOpKind::Sub => (1, 2),
            BinOpKind::Mul | BinOpKind::Div => (3, 4),
            BinOpKind::LogicalAnd => (5, 6),
            BinOpKind::LogicalOr => (7, 8),
        }
    }

    /// Whether the operator works on two numbers.
    pub open spec fn is_arithmetic(self) -> bool {
        self == BinOpKind::Add || self == BinOpKind::Sub || self == BinOpKind::Mul || self
            == BinOpKind::Div
    }

    pub fn precedence(&self) -> (power: (u8, u8))
        ensures
            power == self.binding_power(),
    {
        match self {
            BinOpKind::Add | BinOpKind::Sub => (1, 2),
            BinOpKind::Mul | BinOpKind::Div => (3, 4),
            BinOpKind::LogicalAnd => (5, 6),
            BinOpKind::LogicalOr => (7, 8),
        }
    }
}

/// An expression. `F64` holds the bit pattern of a number literal.
#[derive(Debug, PartialEq)]
pub enum Expression {
    F64(u64),
    Bool(bool),
    Identifier(String),
    BinOp(BinOpKind, Box<Expression>, Box<Expression>),
    Assignment(String, Box<Expression>),
}

/// What an [`Expression`] denotes: the same tree with each name as a sequence
/// of characters.
pub enum ExpressionView {
    F64(u64),
    Bool(bool),
    Identifier(Seq<char>),
    BinOp(BinOpKind, Box<ExpressionView>, Box<ExpressionView>),
    Assignment(Seq<char>, Box<ExpressionView>),
}

impl Expression {
    pub open spec fn model(self) -> ExpressionView
        decreases self,
    {
        match self {
            Expression::F64(bits) => ExpressionView::F64(bits),
            Expression::Bool(value) => ExpressionView::Bool(value),
            Expression::Identifier(name) => ExpressionView::Identifier(name@),
            Expression::BinOp(kind, left, right) => ExpressionView::BinOp(
                kind,
                Box::new((*left).model()),
                Box::new((*right).model()),
            ),
            Expression::Assignment(name, value) => ExpressionView::Assignment(
                name@,
                Box::new((*value).model()),
            ),
        }
    }
}

impl View for Expression {
    type V = ExpressionView;

    open spec fn view(&self) -> ExpressionView {
        self.model()
    }
}

/// A statement: a declaration of a new variable, or an expression.
#[derive(Debug, PartialEq)]
pub enum Statement {
    ExpressionStatement(Expression),
    VariableDeclaration(String, Box<Expression>),
}

pub enum StatementView {
    ExpressionStatement(ExpressionView),
    VariableDeclaration(Seq<char>, ExpressionView),
}

impl View for Statement {
    type V = StatementView;

    open spec fn view(&self) -> StatementView {
        match self {
            Statement::ExpressionStatement(expression) => StatementView::ExpressionStatement(
                expression@,
            ),
            Statement::VariableDeclaration(name, initializer) => StatementView::VariableDeclaration(
                name@,
                initializer@,
            ),
        }
    }
}

/// One parsed input: exactly one statement.
#[derive(Debug, PartialEq)]
pub struct CompilationUnit {
    pub statement: Statement,
}

impl View for CompilationUnit {
    type V = StatementView;

    open spec fn view(&self) -> StatementView {
        self.statement@
    }
}

} // verus!
