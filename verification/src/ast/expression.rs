//! Expression nodes.  Numbers are kept as the parser read them: a literal
//! holds a value whose entries are the texts of number tokens.

use vstd::prelude::*;
use crate::parser::numeral::is_number;
use crate::parser::numeral::is_written_number;
use crate::tokens::Token;
use crate::tokens::TokenView;
use crate::value::Value;
use crate::value::ValueType;
use crate::value::ValueView;

verus! {

/// A constant: a number, or a matrix of numbers.
pub struct Literal {
    pub value: Value<String>,
}

/// An operator applied to one operand.
pub struct Unary {
    pub operator: Token,
    pub right: Box<Expression>,
}

/// An operator applied to two operands.
pub struct Binary {
    pub left: Box<Expression>,
    pub operator: Token,
    pub right: Box<Expression>,
}

/// An expression in parentheses.
pub struct Grouping {
    pub expression: Box<Expression>,
}

/// A variable, by name.
pub struct Identifier {
    pub name: String,
}

/// An expression.
pub enum Expression {
    Literal(Literal),
    Unary(Unary),
    Binary(Binary),
    Grouping(Grouping),
    Identifier(Identifier),
}

/// The mathematical content of an [`Expression`].
pub enum ExpressionView {
    Literal(ValueView<Seq<char>>),
    Unary { operator: TokenView, right: Box<ExpressionView> },
    Binary { left: Box<ExpressionView>, operator: TokenView, right: Box<ExpressionView> },
    Grouping(Box<ExpressionView>),
    Identifier(Seq<char>),
}

/// The content of an expression, node by node.
pub open spec fn expression_view(expression: Expression) -> ExpressionView
    decreases expression,
{
    match expression {
        Expression::Literal(literal) => ExpressionView::Literal(literal.value@),
        Expression::Unary(unary) => ExpressionView::Unary {
            operator: unary.operator@,
            right: Box::new(expression_view(*unary.right)),
        },
        Expression::Binary(binary) => ExpressionView::Binary {
            left: Box::new(expression_view(*binary.left)),
            operator: binary.operator@,
            right: Box::new(expression_view(*binary.right)),
        },
        Expression::Grouping(grouping) => ExpressionView::Grouping(
            Box::new(expression_view(*grouping.expression)),
        ),
        Expression::Identifier(identifier) => ExpressionView::Identifier(identifier.name@),
    }
}

/// Every matrix literal of the expression has as many entries as its
/// shape says, and no empty side.
pub open spec fn well_formed(expression: ExpressionView) -> bool
    decreases expression,
{
    match expression {
        ExpressionView::Literal(value) => value.well_formed(),
        ExpressionView::Unary { right, .. } => well_formed(*right),
        ExpressionView::Binary { left, right, .. } => well_formed(*left) && well_formed(*right),
        ExpressionView::Grouping(inner) => well_formed(*inner),
        ExpressionView::Identifier(_) => true,
    }
}

/// Every text of the value is a number as it is written.
pub open spec fn numeric_value(value: ValueView<Seq<char>>) -> bool {
    match value {
        ValueView::Scalar(text) => is_number(text),
        ValueView::Matrix { data, .. } => forall|k: int|
            0 <= k < data.len() ==> is_number(#[trigger] data[k]),
    }
}

/// Every text of every literal of the expression is a number as it is
/// written.
pub open spec fn numeric(expression: ExpressionView) -> bool
    decreases expression,
{
    match expression {
        ExpressionView::Literal(value) => numeric_value(value),
        ExpressionView::Unary { right, .. } => numeric(*right),
        ExpressionView::Binary { left, right, .. } => numeric(*left) && numeric(*right),
        ExpressionView::Grouping(inner) => numeric(*inner),
        ExpressionView::Identifier(_) => true,
    }
}

impl Literal {
    /// Whether every text of the literal is a number as it is written.
    pub fn is_numeric(&self) -> (ok: bool)
        ensures
            ok == numeric_value(self.value@),
    {
        match &self.value.data {
            ValueType::SCALAR(s) => is_written_number(s.data.as_str()),
            ValueType::MATRIX(m) => {
                let mut k: usize = 0;
                while k < m.data.len()
                    invariant
                        self.value.data == ValueType::MATRIX(*m),
                        k <= m.data@.len(),
                        forall|n: int| 0 <= n < k ==> is_number(#[trigger] m.data@[n]@),
                    decreases m.data@.len() - k,
                {
                    if !is_written_number(m.data[k].as_str()) {
                        proof {
                            assert(self.value@->data[k as int] == m.data@[k as int]@);
                        }
                        return false;
                    }
                    k += 1;
                }
                proof {
                    assert forall|n: int| 0 <= n < self.value@->data.len() implies is_number(
                        #[trigger] self.value@->data[n],
                    ) by {
                        assert(self.value@->data[n] == m.data@[n]@);
                    }
                }
                true
            },
        }
    }
}

impl Expression {
    /// Whether every text of every literal of the expression is a number
    /// as it is written.
    pub fn is_numeric(&self) -> (ok: bool)
        ensures
            ok == numeric(self@),
        decreases self,
    {
        match self {
            Expression::Literal(literal) => literal.is_numeric(),
            Expression::Unary(unary) => unary.right.is_numeric(),
            Expression::Binary(binary) => binary.left.is_numeric() && binary.right.is_numeric(),
            Expression::Grouping(grouping) => grouping.expression.is_numeric(),
            Expression::Identifier(_) => true,
        }
    }

    /// Whether every matrix literal of the expression has as many entries
    /// as its shape says, and no empty side.
    pub fn is_well_formed(&self) -> (ok: bool)
        ensures
            ok == well_formed(self@),
        decreases self,
    {
        match self {
            Expression::Literal(literal) => match &literal.value.data {
                ValueType::SCALAR(_) => true,
                ValueType::MATRIX(m) => m.is_well_formed(),
            },
            Expression::Unary(unary) => unary.right.is_well_formed(),
            Expression::Binary(binary) => binary.left.is_well_formed()
                && binary.right.is_well_formed(),
            Expression::Grouping(grouping) => grouping.expression.is_well_formed(),
            Expression::Identifier(_) => true,
        }
    }
}

impl View for Expression {
    type V = ExpressionView;

    open spec fn view(&self) -> ExpressionView {
        expression_view(*self)
    }
}

impl Literal {
    /// The literal that stands for `value`.
    pub fn new(value: Value<String>) -> (node: Self)
        ensures
            node.value == value,
    {
        Literal { value }
    }
}

impl Unary {
    /// The node for `operator` applied to `right`.
    pub fn new(operator: Token, right: Box<Expression>) -> (node: Self)
        ensures
            node.operator == operator,
            node.right == right,
    {
        Unary { operator, right }
    }
}

impl Binary {
    /// The node for `operator` applied to `left` and `right`.
    pub fn new(left: Box<Expression>, operator: Token, right: Box<Expression>) -> (node: Self)
        ensures
            node.left == left,
            node.operator == operator,
            node.right == right,
    {
        Binary { left, operator, right }
    }
}

impl Grouping {
    /// The group around `expression`.
    pub fn new(expression: Box<Expression>) -> (node: Self)
        ensures
            node.expression == expression,
    {
        Grouping { expression }
    }
}

impl Identifier {
    /// The variable called `name`.
    pub fn new(name: String) -> (node: Self)
        ensures
            node.name == name,
    {
        Identifier { name }
    }
}

} // verus!
