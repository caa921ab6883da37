//! The interpreter.  This module holds the operand rules of the language:
//! which operation an operator stands for on given operands, and which
//! combinations are errors.
//!
//! The rules read of a value only its kind and shape and, of a scalar,
//! whether it is exactly zero and how it reads as an exponent.  They do no
//! arithmetic: they name the operation to carry out.  What carrying it out
//! means is said in [`semantics`], and done in [`evaluator`].

pub mod semantics;
pub mod evaluator;

use vstd::prelude::*;
use vstd::string::*;
use crate::ast::astprinter::ASTPrinter;
use crate::ast::expression::Identifier;
use crate::ast::statement::NewLineStatement;
use crate::environment::Environment;
use crate::tokens::Token;
use crate::tokens::TokenType;
use crate::value::Value;
use crate::value::ValueType;
use crate::value::ValueView;

verus! {

/// An error found while evaluating.  Each ends the run.
#[derive(Debug, PartialEq, Eq, Clone, Copy, Structural)]
pub enum RuntimeError {
    UndefinedVariable,
    TransposeScalar,
    RowEchelonScalar,
    ReducedRowEchelonScalar,
    InverseScalar,
    NotInvertible,
    InvalidUnaryOperator,
    AddScalarMatrix,
    AddShapes,
    SubtractMatrixFromScalar,
    SubtractScalarFromMatrix,
    SubtractShapes,
    MultiplyShapes,
    DivideByZero,
    DivideScalarByMatrix,
    DivideMatrixByMatrix,
    PowerScalarToMatrix,
    PowerNotSquare,
    PowerBelowOne,
    PowerFractional,
    PowerMatrixToMatrix,
    UnknownOperator,
}

/// How a scalar reads as the exponent of a matrix power.
#[derive(Debug, PartialEq, Eq, Clone, Copy, Structural)]
pub enum Exponent {
    /// Less than one.
    BelowOne,
    /// At least one, and not a whole number that 32 bits hold.
    Fractional,
    /// This whole number.
    Whole(u32),
}

/// What the rules read of a scalar.
#[derive(Debug, PartialEq, Eq, Clone, Copy, Structural)]
pub struct Reading {
    /// The scalar is exactly zero.
    pub zero: bool,
    /// The scalar as an exponent.
    pub exponent: Exponent,
}

/// What the rules read of a right operand.
#[derive(Debug, PartialEq, Eq, Clone, Copy, Structural)]
pub enum Operand {
    Scalar(Reading),
    Matrix { rows: usize, cols: usize },
}

/// The kind and shape of a value.
#[derive(Debug, PartialEq, Eq, Clone, Copy, Structural)]
pub enum Shape {
    Scalar,
    Matrix { rows: usize, cols: usize },
}

/// The operation a unary operator stands for.
#[derive(Debug, PartialEq, Eq, Clone, Copy, Structural)]
pub enum UnaryAction {
    /// The scalar with its sign flipped.
    NegateScalar,
    /// Every entry of the matrix times minus one.
    NegateMatrix,
    /// The transpose of the matrix.
    Transpose,
    /// The matrix in row echelon form.
    RowEchelon,
    /// The matrix in reduced row echelon form.
    ReducedRowEchelon,
    /// The inverse of the square matrix.
    Inverse,
}

/// The operation a binary operator stands for.
#[derive(Debug, PartialEq, Eq, Clone, Copy, Structural)]
pub enum BinaryAction {
    /// The sum of two scalars.
    AddScalars,
    /// The entry-by-entry sum of two matrices of one shape.
    AddMatrices,
    /// The difference of two scalars.
    SubtractScalars,
    /// The entry-by-entry difference of two matrices of one shape.
    SubtractMatrices,
    /// The product of two scalars.
    MultiplyScalars,
    /// Every entry of the right operand, a matrix, times the left, a scalar.
    ScaleRight,
    /// Every entry of the left operand, a matrix, times the right, a scalar.
    ScaleLeft,
    /// The matrix product.
    MultiplyMatrices,
    /// The quotient of two scalars.
    DivideScalars,
    /// Every entry of the left operand, a matrix, divided by the right, a
    /// scalar.
    DivideMatrix,
    /// The left scalar to the power of the right.
    PowerScalars,
    /// The square matrix times itself as often as it takes to make this
    /// power of it: one multiplication less than the power.
    PowerMatrix { power: u32 },
}

/// The text of the message for each error.
pub open spec fn message_text(error: RuntimeError) -> Seq<char> {
    match error {
        RuntimeError::UndefinedVariable => "Undefined variable."@,
        RuntimeError::TransposeScalar => "Cannot transpose a scalar."@,
        RuntimeError::RowEchelonScalar => "Cannot convert scalar to REF matrix"@,
        RuntimeError::ReducedRowEchelonScalar => "Cannot convert scalar to RREF matrix"@,
        RuntimeError::InverseScalar => "Cannot convert scalar to RREF matrix"@,
        RuntimeError::NotInvertible => "Matrix is not invertible"@,
        RuntimeError::InvalidUnaryOperator => "Invalid unary operator"@,
        RuntimeError::AddScalarMatrix => "Cannot add a scalar to a matrix"@,
        RuntimeError::AddShapes => "Cannot add matrices of different sizes"@,
        RuntimeError::SubtractMatrixFromScalar => "Cannot subtract a matrix from a scalar"@,
        RuntimeError::SubtractScalarFromMatrix => "Cannot subtract a scalar from a matrix"@,
        RuntimeError::SubtractShapes => "Cannot subtract matrices of different sizes"@,
        RuntimeError::MultiplyShapes => "Cannot multiply matrices of different sizes"@,
        RuntimeError::DivideByZero => "Cannot divide by zero"@,
        RuntimeError::DivideScalarByMatrix => "Cannot divide a scalar by a matrix"@,
        RuntimeError::DivideMatrixByMatrix => "Cannot divide a matrix by a matrix"@,
        RuntimeError::PowerScalarToMatrix => "Cannot raise a scalar to a matrix"@,
        RuntimeError::PowerNotSquare => "Cannot raise a singular matrix to a power"@,
        RuntimeError::PowerBelowOne => "Cannot raise a matrix to a power less than 1"@,
        RuntimeError::PowerFractional => "Cannot raise a matrix to a non-integer power"@,
        RuntimeError::PowerMatrixToMatrix => "Cannot raise a matrix to a matrix"@,
        RuntimeError::UnknownOperator => "Unknown operator"@,
    }
}

impl RuntimeError {
    /// The message for this error.
    pub fn message(&self) -> (text: &'static str)
        ensures
            text@ == message_text(*self),
    {
        match self {
            RuntimeError::UndefinedVariable => "Undefined variable.",
            RuntimeError::TransposeScalar => "Cannot transpose a scalar.",
            RuntimeError::RowEchelonScalar => "Cannot convert scalar to REF matrix",
            RuntimeError::ReducedRowEchelonScalar => "Cannot convert scalar to RREF matrix",
            RuntimeError::InverseScalar => "Cannot convert scalar to RREF matrix",
            RuntimeError::NotInvertible => "Matrix is not invertible",
            RuntimeError::InvalidUnaryOperator => "Invalid unary operator",
            RuntimeError::AddScalarMatrix => "Cannot add a scalar to a matrix",
            RuntimeError::AddShapes => "Cannot add matrices of different sizes",
            RuntimeError::SubtractMatrixFromScalar => "Cannot subtract a matrix from a scalar",
            RuntimeError::SubtractScalarFromMatrix => "Cannot subtract a scalar from a matrix",
            RuntimeError::SubtractShapes => "Cannot subtract matrices of different sizes",
            RuntimeError::MultiplyShapes => "Cannot multiply matrices of different sizes",
            RuntimeError::DivideByZero => "Cannot divide by zero",
            RuntimeError::DivideScalarByMatrix => "Cannot divide a scalar by a matrix",
            RuntimeError::DivideMatrixByMatrix => "Cannot divide a matrix by a matrix",
            RuntimeError::PowerScalarToMatrix => "Cannot raise a scalar to a matrix",
            RuntimeError::PowerNotSquare => "Cannot raise a singular matrix to a power",
            RuntimeError::PowerBelowOne => "Cannot raise a matrix to a power less than 1",
            RuntimeError::PowerFractional => "Cannot raise a matrix to a non-integer power",
            RuntimeError::PowerMatrixToMatrix => "Cannot raise a matrix to a matrix",
            RuntimeError::UnknownOperator => "Unknown operator",
        }
    }
}

impl Operand {
    /// The kind and shape of the operand.
    pub open spec fn shape(self) -> Shape {
        match self {
            Operand::Scalar(_) => Shape::Scalar,
            Operand::Matrix { rows, cols } => Shape::Matrix { rows, cols },
        }
    }
}

/// The kind and shape of a value.
pub open spec fn shape_of<T>(value: Value<T>) -> Shape {
    match value.data {
        ValueType::SCALAR(_) => Shape::Scalar,
        ValueType::MATRIX(m) => Shape::Matrix { rows: m.rows, cols: m.cols },
    }
}

/// The kind and shape of the content of a value.
pub open spec fn content_shape<V>(content: ValueView<V>) -> Shape {
    match content {
        ValueView::Scalar(_) => Shape::Scalar,
        ValueView::Matrix { rows, cols, .. } => Shape::Matrix {
            rows: rows as usize,
            cols: cols as usize,
        },
    }
}

impl<T> Value<T> {
    /// The kind and shape of the value.
    pub fn shape(&self) -> (shape: Shape)
        ensures
            shape == shape_of(*self),
            shape == content_shape(self.content()),
    {
        match &self.data {
            ValueType::SCALAR(_) => Shape::Scalar,
            ValueType::MATRIX(m) => Shape::Matrix { rows: m.rows, cols: m.cols },
        }
    }
}

/// What a unary operator does to an operand of the given shape: negation
/// works on both kinds; transposition and the three reductions work on
/// matrices only, and the inverse on square ones only.
pub open spec fn unary_outcome(operator: TokenType, operand: Shape) -> Result<
    UnaryAction,
    RuntimeError,
> {
    match operator {
        TokenType::TOKEN_MINUS => match operand {
            Shape::Scalar => Ok(UnaryAction::NegateScalar),
            Shape::Matrix { .. } => Ok(UnaryAction::NegateMatrix),
        },
        TokenType::TOKEN_TRANSPOSE => match operand {
            Shape::Scalar => Err(RuntimeError::TransposeScalar),
            Shape::Matrix { .. } => Ok(UnaryAction::Transpose),
        },
        TokenType::TOKEN_REF => match operand {
            Shape::Scalar => Err(RuntimeError::RowEchelonScalar),
            Shape::Matrix { .. } => Ok(UnaryAction::RowEchelon),
        },
        TokenType::TOKEN_RREF => match operand {
            Shape::Scalar => Err(RuntimeError::ReducedRowEchelonScalar),
            Shape::Matrix { .. } => Ok(UnaryAction::ReducedRowEchelon),
        },
        TokenType::TOKEN_INVERSE => match operand {
            Shape::Scalar => Err(RuntimeError::InverseScalar),
            Shape::Matrix { rows, cols } => if rows == cols {
                Ok(UnaryAction::Inverse)
            } else {
                Err(RuntimeError::NotInvertible)
            },
        },
        _ => Err(RuntimeError::InvalidUnaryOperator),
    }
}

/// What `+` does.
pub open spec fn add_outcome(left: Shape, right: Operand) -> Result<BinaryAction, RuntimeError> {
    match (left, right) {
        (Shape::Scalar, Operand::Scalar(_)) => Ok(BinaryAction::AddScalars),
        (Shape::Scalar, Operand::Matrix { .. }) => Err(RuntimeError::AddScalarMatrix),
        (Shape::Matrix { .. }, Operand::Scalar(_)) => Err(RuntimeError::AddScalarMatrix),
        (Shape::Matrix { rows, cols }, Operand::Matrix { rows: rows2, cols: cols2 }) => if rows
            != rows2 || cols != cols2 {
            Err(RuntimeError::AddShapes)
        } else {
            Ok(BinaryAction::AddMatrices)
        },
    }
}

/// What `-` does.
pub open spec fn subtract_outcome(left: Shape, right: Operand) -> Result<
    BinaryAction,
    RuntimeError,
> {
    match (left, right) {
        (Shape::Scalar, Operand::Scalar(_)) => Ok(BinaryAction::SubtractScalars),
        (Shape::Scalar, Operand::Matrix { .. }) => Err(
            RuntimeError::SubtractMatrixFromScalar,
        ),
        (Shape::Matrix { .. }, Operand::Scalar(_)) => Err(
            RuntimeError::SubtractScalarFromMatrix,
        ),
        (Shape::Matrix { rows, cols }, Operand::Matrix { rows: rows2, cols: cols2 }) => if rows
            != rows2 || cols != cols2 {
            Err(RuntimeError::SubtractShapes)
        } else {
            Ok(BinaryAction::SubtractMatrices)
        },
    }
}

/// What `*` does.
pub open spec fn multiply_outcome(left: Shape, right: Operand) -> Result<
    BinaryAction,
    RuntimeError,
> {
    match (left, right) {
        (Shape::Scalar, Operand::Scalar(_)) => Ok(BinaryAction::MultiplyScalars),
        (Shape::Scalar, Operand::Matrix { .. }) => Ok(BinaryAction::ScaleRight),
        (Shape::Matrix { .. }, Operand::Scalar(_)) => Ok(BinaryAction::ScaleLeft),
        (Shape::Matrix { rows, cols }, Operand::Matrix { rows: rows2, cols: cols2 }) => if cols
            != rows2 {
            Err(RuntimeError::MultiplyShapes)
        } else {
            Ok(BinaryAction::MultiplyMatrices)
        },
    }
}

/// What `/` does.
pub open spec fn divide_outcome(left: Shape, right: Operand) -> Result<
    BinaryAction,
    RuntimeError,
> {
    match (left, right) {
        (Shape::Scalar, Operand::Scalar(divisor)) => if divisor.zero {
            Err(RuntimeError::DivideByZero)
        } else {
            Ok(BinaryAction::DivideScalars)
        },
        (Shape::Scalar, Operand::Matrix { .. }) => Err(RuntimeError::DivideScalarByMatrix),
        (Shape::Matrix { .. }, Operand::Scalar(divisor)) => if divisor.zero {
            Err(RuntimeError::DivideByZero)
        } else {
            Ok(BinaryAction::DivideMatrix)
        },
        (Shape::Matrix { .. }, Operand::Matrix { .. }) => Err(
            RuntimeError::DivideMatrixByMatrix,
        ),
    }
}

/// What `^` does.
pub open spec fn power_outcome(left: Shape, right: Operand) -> Result<
    BinaryAction,
    RuntimeError,
> {
    match (left, right) {
        (Shape::Scalar, Operand::Scalar(_)) => Ok(BinaryAction::PowerScalars),
        (Shape::Scalar, Operand::Matrix { .. }) => Err(RuntimeError::PowerScalarToMatrix),
        (Shape::Matrix { rows, cols }, Operand::Scalar(exponent)) => if rows != cols {
            Err(RuntimeError::PowerNotSquare)
        } else {
            match exponent.exponent {
                Exponent::BelowOne => Err(RuntimeError::PowerBelowOne),
                Exponent::Fractional => Err(RuntimeError::PowerFractional),
                Exponent::Whole(power) => if power < 1 {
                    Err(RuntimeError::PowerBelowOne)
                } else {
                    Ok(BinaryAction::PowerMatrix { power })
                },
            }
        },
        (Shape::Matrix { .. }, Operand::Matrix { .. }) => Err(
            RuntimeError::PowerMatrixToMatrix,
        ),
    }
}

/// What a binary operator does to its operands.  The comparison and
/// equality operators are part of the syntax only: they are unknown here.
pub open spec fn binary_outcome(operator: TokenType, left: Shape, right: Operand) -> Result<
    BinaryAction,
    RuntimeError,
> {
    match operator {
        TokenType::TOKEN_PLUS => add_outcome(left, right),
        TokenType::TOKEN_MINUS => subtract_outcome(left, right),
        TokenType::TOKEN_STAR => multiply_outcome(left, right),
        TokenType::TOKEN_SLASH => divide_outcome(left, right),
        TokenType::TOKEN_CARET => power_outcome(left, right),
        _ => Err(RuntimeError::UnknownOperator),
    }
}

/// The operation that a unary operator stands for on an operand of the
/// given shape, or the error that the combination is.
pub fn visit_unary(operator: TokenType, operand: Shape) -> (outcome: Result<
    UnaryAction,
    RuntimeError,
>)
    ensures
        outcome == unary_outcome(operator, operand),
{
    match operator {
        TokenType::TOKEN_MINUS => match operand {
            Shape::Scalar => Ok(UnaryAction::NegateScalar),
            Shape::Matrix { .. } => Ok(UnaryAction::NegateMatrix),
        },
        TokenType::TOKEN_TRANSPOSE => match operand {
            Shape::Scalar => Err(RuntimeError::TransposeScalar),
            Shape::Matrix { .. } => Ok(UnaryAction::Transpose),
        },
        TokenType::TOKEN_REF => match operand {
            Shape::Scalar => Err(RuntimeError::RowEchelonScalar),
            Shape::Matrix { .. } => Ok(UnaryAction::RowEchelon),
        },
        TokenType::TOKEN_RREF => match operand {
            Shape::Scalar => Err(RuntimeError::ReducedRowEchelonScalar),
            Shape::Matrix { .. } => Ok(UnaryAction::ReducedRowEchelon),
        },
        TokenType::TOKEN_INVERSE => match operand {
            Shape::Scalar => Err(RuntimeError::InverseScalar),
            Shape::Matrix { rows, cols } => {
                if rows == cols {
                    Ok(UnaryAction::Inverse)
                } else {
                    Err(RuntimeError::NotInvertible)
                }
            },
        },
        _ => Err(RuntimeError::InvalidUnaryOperator),
    }
}

/// The operation that a binary operator stands for on the given operands,
/// or the error that the combination is.
pub fn visit_binary(operator: TokenType, left: Shape, right: Operand) -> (outcome: Result<
    BinaryAction,
    RuntimeError,
>)
    ensures
        outcome == binary_outcome(operator, left, right),
{
    match operator {
        TokenType::TOKEN_PLUS => match left {
            Shape::Scalar => match right {
                Operand::Scalar(_) => Ok(BinaryAction::AddScalars),
                Operand::Matrix { .. } => Err(RuntimeError::AddScalarMatrix),
            },
            Shape::Matrix { rows, cols } => match right {
                Operand::Scalar(_) => Err(RuntimeError::AddScalarMatrix),
                Operand::Matrix { rows: rows2, cols: cols2 } => {
                    if rows != rows2 || cols != cols2 {
                        Err(RuntimeError::AddShapes)
                    } else {
                        Ok(BinaryAction::AddMatrices)
                    }
                },
            },
        },
        TokenType::TOKEN_MINUS => match left {
            Shape::Scalar => match right {
                Operand::Scalar(_) => Ok(BinaryAction::SubtractScalars),
                Operand::Matrix { .. } => Err(RuntimeError::SubtractMatrixFromScalar),
            },
            Shape::Matrix { rows, cols } => match right {
                Operand::Scalar(_) => Err(RuntimeError::SubtractScalarFromMatrix),
                Operand::Matrix { rows: rows2, cols: cols2 } => {
                    if rows != rows2 || cols != cols2 {
                        Err(RuntimeError::SubtractShapes)
                    } else {
                        Ok(BinaryAction::SubtractMatrices)
                    }
                },
            },
        },
        TokenType::TOKEN_STAR => match left {
            Shape::Scalar => match right {
                Operand::Scalar(_) => Ok(BinaryAction::MultiplyScalars),
                Operand::Matrix { .. } => Ok(BinaryAction::ScaleRight),
            },
            Shape::Matrix { rows, cols } => match right {
                Operand::Scalar(_) => Ok(BinaryAction::ScaleLeft),
                Operand::Matrix { rows: rows2, cols: cols2 } => {
                    if cols != rows2 {
                        Err(RuntimeError::MultiplyShapes)
                    } else {
                        Ok(BinaryAction::MultiplyMatrices)
                    }
                },
            },
        },
        TokenType::TOKEN_SLASH => match left {
            Shape::Scalar => match right {
                Operand::Scalar(divisor) => {
                    if divisor.zero {
                        Err(RuntimeError::DivideByZero)
                    } else {
                        Ok(BinaryAction::DivideScalars)
                    }
                },
                Operand::Matrix { .. } => Err(RuntimeError::DivideScalarByMatrix),
            },
            Shape::Matrix { .. } => match right {
                Operand::Scalar(divisor) => {
                    if divisor.zero {
                        Err(RuntimeError::DivideByZero)
                    } else {
                        Ok(BinaryAction::DivideMatrix)
                    }
                },
                Operand::Matrix { .. } => Err(RuntimeError::DivideMatrixByMatrix),
            },
        },
        TokenType::TOKEN_CARET => match left {
            Shape::Scalar => match right {
                Operand::Scalar(_) => Ok(BinaryAction::PowerScalars),
                Operand::Matrix { .. } => Err(RuntimeError::PowerScalarToMatrix),
            },
            Shape::Matrix { rows, cols } => match right {
                Operand::Scalar(exponent) => {
                    if rows != cols {
                        return Err(RuntimeError::PowerNotSquare);
                    }
                    match exponent.exponent {
                        Exponent::BelowOne => Err(RuntimeError::PowerBelowOne),
                        Exponent::Fractional => Err(RuntimeError::PowerFractional),
                        Exponent::Whole(power) => {
                            if power < 1 {
                                Err(RuntimeError::PowerBelowOne)
                            } else {
                                Ok(BinaryAction::PowerMatrix { power })
                            }
                        },
                    }
                },
                Operand::Matrix { .. } => Err(RuntimeError::PowerMatrixToMatrix),
            },
        },
        _ => Err(RuntimeError::UnknownOperator),
    }
}

/// Two matrices can be added, and subtracted, if and only if they have
/// the same number of rows and the same number of columns.
pub proof fn lemma_sum_needs_equal_shapes(rows: usize, cols: usize, rows2: usize, cols2: usize)
    ensures
        binary_outcome(
            TokenType::TOKEN_PLUS,
            Shape::Matrix { rows, cols },
            Operand::Matrix { rows: rows2, cols: cols2 },
        ) is Ok <==> rows == rows2 && cols == cols2,
        binary_outcome(
            TokenType::TOKEN_MINUS,
            Shape::Matrix { rows, cols },
            Operand::Matrix { rows: rows2, cols: cols2 },
        ) is Ok <==> rows == rows2 && cols == cols2,
{
}

/// Two matrices can be multiplied if and only if the left has as many
/// columns as the right has rows.
pub proof fn lemma_product_needs_matching_sides(
    rows: usize,
    cols: usize,
    rows2: usize,
    cols2: usize,
)
    ensures
        binary_outcome(
            TokenType::TOKEN_STAR,
            Shape::Matrix { rows, cols },
            Operand::Matrix { rows: rows2, cols: cols2 },
        ) is Ok <==> cols == rows2,
        cols == rows2 ==> binary_outcome(
            TokenType::TOKEN_STAR,
            Shape::Matrix { rows, cols },
            Operand::Matrix { rows: rows2, cols: cols2 },
        ) == Ok::<BinaryAction, RuntimeError>(BinaryAction::MultiplyMatrices),
{
}

/// Dividing by a scalar that is exactly zero is an error, whatever is
/// divided: a scalar or a matrix.
pub proof fn lemma_division_by_zero(left: Shape, divisor: Reading)
    requires
        divisor.zero,
    ensures
        binary_outcome(TokenType::TOKEN_SLASH, left, Operand::Scalar(divisor)) == Err::<
            BinaryAction,
            RuntimeError,
        >(RuntimeError::DivideByZero),
{
}

/// The text of `count` empty lines.
pub open spec fn blank_lines(count: nat) -> Seq<char>
    decreases count,
{
    if count == 0 {
        Seq::empty()
    } else {
        blank_lines((count - 1) as nat) + "\n"@
    }
}

/// The state of a run: the variables bound so far.
#[verifier::reject_recursive_types(T)]
pub struct Interpreter<T> {
    pub ast_printer: ASTPrinter,
    pub globals: Environment<Value<T>>,
}

impl<T> Interpreter<T> {
    /// An interpreter in which nothing is bound yet.
    pub fn new() -> (interpreter: Self)
        ensures
            interpreter.globals@ == Map::<Seq<char>, Value<T>>::empty(),
    {
        Interpreter { ast_printer: ASTPrinter::new(), globals: Environment::new() }
    }

    /// The value of a variable: the value last bound to its name.  A name
    /// that is not bound is an error.
    pub fn visit_identifier(&self, identifier: &Identifier) -> (value: Result<
        &Value<T>,
        RuntimeError,
    >)
        ensures
            match value {
                Ok(v) => self.globals@.contains_key(identifier.name@) && *v
                    == self.globals@[identifier.name@],
                Err(error) => error == RuntimeError::UndefinedVariable
                    && !self.globals@.contains_key(identifier.name@),
            },
    {
        match self.globals.lookup(&identifier.name) {
            Some(value) => Ok(value),
            None => Err(RuntimeError::UndefinedVariable),
        }
    }

    /// Binds the name of a `let` to the value of its initializer.  An
    /// earlier binding of the name is replaced.
    pub fn visit_let_statement(&mut self, name: &Token, value: Value<T>)
        ensures
            final(self).globals@ == old(self).globals@.insert(name.lexeme@, value),
    {
        self.globals.define(name.lexeme.clone(), value);
    }

    /// The text a `newline` statement prints: as many empty lines as it
    /// says.
    pub fn visit_new_line_statement(&self, statement: &NewLineStatement) -> (text: String)
        ensures
            text@ == blank_lines(statement.lines as nat),
    {
        let mut text = String::new();
        let mut i: usize = 0;
        while i < statement.lines
            invariant
                i <= statement.lines,
                text@ == blank_lines(i as nat),
            decreases statement.lines - i,
        {
            text.append("\n");
            i += 1;
        }
        text
    }
}

} // verus!
