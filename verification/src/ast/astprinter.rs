//! A printer of the structure of an expression.

use vstd::prelude::*;
use vstd::string::*;
use crate::ast::expression::Expression;
use crate::ast::expression::ExpressionView;
use crate::value::printed;

verus! {

/// Prints expressions with the grouping that parsing gave them.
pub struct ASTPrinter {}

/// The text for an expression: a literal as it prints, an operator with
/// its operands in parentheses, a group in parentheses of its own, and
/// nothing for a variable.
pub open spec fn rendering(expression: ExpressionView) -> Seq<char>
    decreases expression,
{
    match expression {
        ExpressionView::Literal(value) => printed(value),
        ExpressionView::Unary { operator, right } => "("@ + operator.lexeme + " "@ + rendering(
            *right,
        ) + ")"@,
        ExpressionView::Binary { left, operator, right } => "("@ + rendering(*left) + " "@
            + operator.lexeme + " "@ + rendering(*right) + ")"@,
        ExpressionView::Grouping(inner) => "("@ + rendering(*inner) + ")"@,
        ExpressionView::Identifier(_) => Seq::empty(),
    }
}

/// Every matrix literal of the expression has an entry for every place of
/// its shape.
pub open spec fn printable(expression: Expression) -> bool
    decreases expression,
{
    match expression {
        Expression::Literal(literal) => literal.value.filled(),
        Expression::Unary(unary) => printable(*unary.right),
        Expression::Binary(binary) => printable(*binary.left) && printable(*binary.right),
        Expression::Grouping(grouping) => printable(*grouping.expression),
        Expression::Identifier(_) => true,
    }
}

impl ASTPrinter {
    /// A printer.
    pub fn new() -> Self {
        ASTPrinter {  }
    }

    /// Whether every matrix literal of the expression has an entry for
    /// every place of its shape.
    pub fn is_printable(&self, expression: &Expression) -> (ok: bool)
        ensures
            ok == printable(*expression),
        decreases expression,
    {
        match expression {
            Expression::Literal(literal) => literal.value.is_filled(),
            Expression::Unary(unary) => self.is_printable(&unary.right),
            Expression::Binary(binary) => self.is_printable(&binary.left) && self.is_printable(
                &binary.right,
            ),
            Expression::Grouping(grouping) => self.is_printable(&grouping.expression),
            Expression::Identifier(_) => true,
        }
    }

    /// The text for the expression.
    pub fn print(&self, expression: &Expression) -> (text: String)
        requires
            printable(*expression),
        ensures
            text@ == rendering(expression@),
        decreases expression,
    {
        match expression {
            Expression::Literal(literal) => literal.value.print(),
            Expression::Unary(unary) => {
                let mut text = String::from_str("(");
                text.append(unary.operator.lexeme.as_str());
                text.append(" ");
                let right = self.print(&unary.right);
                text.append(right.as_str());
                text.append(")");
                text
            },
            Expression::Binary(binary) => {
                let mut text = String::from_str("(");
                let left = self.print(&binary.left);
                text.append(left.as_str());
                text.append(" ");
                text.append(binary.operator.lexeme.as_str());
                text.append(" ");
                let right = self.print(&binary.right);
                text.append(right.as_str());
                text.append(")");
                text
            },
            Expression::Grouping(grouping) => {
                let mut text = String::from_str("(");
                let inner = self.print(&grouping.expression);
                text.append(inner.as_str());
                text.append(")");
                text
            },
            Expression::Identifier(_) => String::new(),
        }
    }
}

} // verus!
