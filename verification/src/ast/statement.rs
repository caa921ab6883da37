//! Statement nodes.

use vstd::prelude::*;
use crate::ast::expression::Expression;
use crate::ast::expression::ExpressionView;
use crate::tokens::Token;
use crate::tokens::TokenView;

verus! {

/// An expression evaluated for its own sake.
pub struct ExpressionStatement {
    pub expression: Box<Expression>,
}

/// An expression whose value is printed.
pub struct PrintStatement {
    pub expression: Box<Expression>,
}

/// A binding of a name to the value of an expression.
pub struct LetStatement {
    pub name: Token,
    pub initializer: Box<Expression>,
}

/// A number of blank lines to print.
pub struct NewLineStatement {
    pub lines: usize,
}

/// A statement.
pub enum Statement {
    Expression(ExpressionStatement),
    Print(PrintStatement),
    Let(LetStatement),
    NewLine(NewLineStatement),
}

/// The mathematical content of a [`Statement`].
pub enum StatementView {
    Expression(ExpressionView),
    Print(ExpressionView),
    Let { name: TokenView, initializer: ExpressionView },
    NewLine(nat),
}

impl View for Statement {
    type V = StatementView;

    open spec fn view(&self) -> StatementView {
        match self {
            Statement::Expression(s) => StatementView::Expression((*s.expression)@),
            Statement::Print(s) => StatementView::Print((*s.expression)@),
            Statement::Let(s) => StatementView::Let {
                name: s.name@,
                initializer: (*s.initializer)@,
            },
            Statement::NewLine(s) => StatementView::NewLine(s.lines as nat),
        }
    }
}

impl StatementView {
    /// Every matrix literal of the statement has as many entries as its
    /// shape says, and no empty side.
    pub open spec fn well_formed(self) -> bool {
        match self {
            StatementView::Expression(expression) => crate::ast::expression::well_formed(
                expression,
            ),
            StatementView::Print(expression) => crate::ast::expression::well_formed(expression),
            StatementView::Let { initializer, .. } => crate::ast::expression::well_formed(
                initializer,
            ),
            StatementView::NewLine(_) => true,
        }
    }

    /// Every text of every literal of the statement is a number as it is
    /// written.
    pub open spec fn numeric(self) -> bool {
        match self {
            StatementView::Expression(expression) => crate::ast::expression::numeric(expression),
            StatementView::Print(expression) => crate::ast::expression::numeric(expression),
            StatementView::Let { initializer, .. } => crate::ast::expression::numeric(initializer),
            StatementView::NewLine(_) => true,
        }
    }
}

impl Statement {
    /// Whether every text of every literal of the statement is a number as
    /// it is written.
    pub fn is_numeric(&self) -> (ok: bool)
        ensures
            ok == self@.numeric(),
    {
        match self {
            Statement::Expression(s) => s.expression.is_numeric(),
            Statement::Print(s) => s.expression.is_numeric(),
            Statement::Let(s) => s.initializer.is_numeric(),
            Statement::NewLine(_) => true,
        }
    }

    /// Whether every matrix literal of the statement has as many entries
    /// as its shape says, and no empty side.
    pub fn is_well_formed(&self) -> (ok: bool)
        ensures
            ok == self@.well_formed(),
    {
        match self {
            Statement::Expression(s) => s.expression.is_well_formed(),
            Statement::Print(s) => s.expression.is_well_formed(),
            Statement::Let(s) => s.initializer.is_well_formed(),
            Statement::NewLine(_) => true,
        }
    }
}

/// The views of a sequence of statements, in order.
pub open spec fn statement_views(statements: Seq<Statement>) -> Seq<StatementView> {
    statements.map_values(|s: Statement| s@)
}

impl ExpressionStatement {
    /// The statement that evaluates `expression`.
    pub fn new(expression: Box<Expression>) -> (node: Self)
        ensures
            node.expression == expression,
    {
        ExpressionStatement { expression }
    }
}

impl PrintStatement {
    /// The statement that prints `expression`.
    pub fn new(expression: Box<Expression>) -> (node: Self)
        ensures
            node.expression == expression,
    {
        PrintStatement { expression }
    }
}

impl LetStatement {
    /// The statement that binds `name` to the value of `initializer`.
    pub fn new(name: Token, initializer: Box<Expression>) -> (node: Self)
        ensures
            node.name == name,
            node.initializer == initializer,
    {
        LetStatement { name, initializer }
    }
}

impl NewLineStatement {
    /// The statement that prints `lines` empty lines.
    pub fn new(lines: usize) -> (node: Self)
        ensures
            node.lines == lines,
    {
        NewLineStatement { lines }
    }
}

} // verus!
