//! What evaluation means: the outcome of every expression and statement,
//! said through what the operations on numbers ensure of their results.
//!
//! Evaluation fails fast.  The operand of a unary operator and the two
//! operands of a binary one are evaluated first, the left before the
//! right, and the first error among them is the outcome; only then do the
//! operand rules decide.

use vstd::prelude::*;
use crate::arithmetic::is_power;
use crate::arithmetic::is_product;
use crate::arithmetic::neutral;
use crate::ast::expression::Expression;
use crate::ast::statement::Statement;
use crate::elimination::is_inverse;
use crate::elimination::is_reduced_row_echelon;
use crate::elimination::is_row_echelon;
use crate::interpreter::binary_outcome;
use crate::interpreter::BinaryAction;
use crate::interpreter::blank_lines;
use crate::interpreter::content_shape;
use crate::interpreter::Operand;
use crate::interpreter::RuntimeError;
use crate::interpreter::unary_outcome;
use crate::interpreter::UnaryAction;
use crate::numbers::Numbers;
use crate::reduced::is_reduced;
use crate::reduced::steady;
use crate::relations::chosen;
use crate::relations::entrywise;
use crate::relations::pairwise;
use crate::tokens::TokenType;
use crate::value::entry_views;
use crate::value::identity_entries;
use crate::value::Matrix;
use crate::value::printed;
use crate::value::transposed_entries;
use crate::value::Value;
use crate::value::ValueType;
use crate::value::ValueView;

verus! {

/// What evaluating an expression comes to: the content of a value, or the
/// error that ends the run.
pub type Outcome<T> = Result<ValueView<T>, RuntimeError>;

/// The step of a matrix product: one call of `multiply_add`.
pub open spec fn product_step<T: Copy, N: Numbers<T>>(numbers: &N) -> spec_fn(T, T, T, T) -> bool {
    |sum: T, a: T, b: T, next: T| call_ensures(N::multiply_add, (numbers, sum, a, b), next)
}

/// The outcome of a literal: each of its number texts read as a number.
pub open spec fn literal_outcome<T: Copy, N: Numbers<T>>(
    numbers: &N,
    literal: Value<String>,
    outcome: Outcome<T>,
) -> bool {
    match literal.data {
        ValueType::SCALAR(s) => outcome matches Ok(ValueView::Scalar(x)) && call_ensures(
            N::number,
            (numbers, &s.data),
            x,
        ),
        ValueType::MATRIX(m) => {
            &&& outcome matches Ok(ValueView::Matrix { data, rows, cols })
            &&& rows == m.rows
            &&& cols == m.cols
            &&& data.len() == m.data@.len()
            &&& forall|k: int|
                0 <= k < data.len() ==> call_ensures(
                    N::number,
                    (numbers, &m.data@[k]),
                    #[trigger] data[k],
                )
        },
    }
}

/// `result` is what the unary operation makes of `operand`.
pub open spec fn applies_unary<T: Copy, N: Numbers<T>>(
    numbers: &N,
    action: UnaryAction,
    operand: ValueView<T>,
    result: ValueView<T>,
) -> bool {
    match action {
        UnaryAction::NegateScalar => {
            &&& operand matches ValueView::Scalar(x)
            &&& result matches ValueView::Scalar(y)
            &&& call_ensures(N::negate, (numbers, x), y)
        },
        UnaryAction::NegateMatrix => {
            &&& operand matches ValueView::Matrix { data, rows, cols }
            &&& result matches ValueView::Matrix { data: negated, rows: rows2, cols: cols2 }
            &&& rows2 == rows
            &&& cols2 == cols
            &&& entrywise(|a: T, b: T| call_ensures(N::negate, (numbers, a), b), data, negated)
        },
        UnaryAction::Transpose => {
            &&& operand matches ValueView::Matrix { data, rows, cols }
            &&& result == (ValueView::Matrix {
                data: transposed_entries(data, rows, cols),
                rows: cols,
                cols: rows,
            })
        },
        UnaryAction::RowEchelon => {
            &&& operand matches ValueView::Matrix { data, rows, cols }
            &&& result matches ValueView::Matrix { data: reduced, rows: rows2, cols: cols2 }
            &&& rows2 == rows
            &&& cols2 == cols
            &&& is_row_echelon(numbers, data, rows as int, cols as int, reduced)
        },
        UnaryAction::ReducedRowEchelon => {
            &&& operand matches ValueView::Matrix { data, rows, cols }
            &&& result matches ValueView::Matrix { data: reduced, rows: rows2, cols: cols2 }
            &&& rows2 == rows
            &&& cols2 == cols
            &&& is_reduced_row_echelon(numbers, data, rows as int, cols as int, reduced)
        },
        UnaryAction::Inverse => {
            &&& operand matches ValueView::Matrix { data, rows, cols }
            &&& result matches ValueView::Matrix { data: inverse, rows: rows2, cols: cols2 }
            &&& rows2 == rows
            &&& cols2 == cols
            &&& is_inverse(numbers, data, rows, inverse)
        },
    }
}

/// `result` is what the binary operation makes of `left` and `right`.
pub open spec fn applies_binary<T: Copy, N: Numbers<T>>(
    numbers: &N,
    action: BinaryAction,
    left: ValueView<T>,
    right: ValueView<T>,
    result: ValueView<T>,
) -> bool {
    match action {
        BinaryAction::AddScalars => {
            &&& left matches ValueView::Scalar(a)
            &&& right matches ValueView::Scalar(b)
            &&& result matches ValueView::Scalar(c)
            &&& call_ensures(N::add, (numbers, a, b), c)
        },
        BinaryAction::SubtractScalars => {
            &&& left matches ValueView::Scalar(a)
            &&& right matches ValueView::Scalar(b)
            &&& result matches ValueView::Scalar(c)
            &&& call_ensures(N::subtract, (numbers, a, b), c)
        },
        BinaryAction::MultiplyScalars => {
            &&& left matches ValueView::Scalar(a)
            &&& right matches ValueView::Scalar(b)
            &&& result matches ValueView::Scalar(c)
            &&& call_ensures(N::multiply, (numbers, a, b), c)
        },
        BinaryAction::DivideScalars => {
            &&& left matches ValueView::Scalar(a)
            &&& right matches ValueView::Scalar(b)
            &&& result matches ValueView::Scalar(c)
            &&& call_ensures(N::divide, (numbers, a, b), c)
        },
        BinaryAction::PowerScalars => {
            &&& left matches ValueView::Scalar(a)
            &&& right matches ValueView::Scalar(b)
            &&& result matches ValueView::Scalar(c)
            &&& call_ensures(N::power, (numbers, a, b), c)
        },
        BinaryAction::AddMatrices => {
            &&& left matches ValueView::Matrix { data: l, rows, cols }
            &&& right matches ValueView::Matrix { data: r, .. }
            &&& result matches ValueView::Matrix { data: sums, rows: rows2, cols: cols2 }
            &&& rows2 == rows
            &&& cols2 == cols
            &&& pairwise(|a: T, b: T, c: T| call_ensures(N::add, (numbers, a, b), c), l, r, sums)
        },
        BinaryAction::SubtractMatrices => {
            &&& left matches ValueView::Matrix { data: l, rows, cols }
            &&& right matches ValueView::Matrix { data: r, .. }
            &&& result matches ValueView::Matrix { data: differences, rows: rows2, cols: cols2 }
            &&& rows2 == rows
            &&& cols2 == cols
            &&& pairwise(
                |a: T, b: T, c: T| call_ensures(N::subtract, (numbers, a, b), c),
                l,
                r,
                differences,
            )
        },
        BinaryAction::ScaleRight => {
            &&& left matches ValueView::Scalar(x)
            &&& right matches ValueView::Matrix { data, rows, cols }
            &&& result matches ValueView::Matrix { data: scaled, rows: rows2, cols: cols2 }
            &&& rows2 == rows
            &&& cols2 == cols
            &&& entrywise(
                |e: T, p: T| call_ensures(N::multiply, (numbers, e, x), p),
                data,
                scaled,
            )
        },
        BinaryAction::ScaleLeft => {
            &&& left matches ValueView::Matrix { data, rows, cols }
            &&& right matches ValueView::Scalar(x)
            &&& result matches ValueView::Matrix { data: scaled, rows: rows2, cols: cols2 }
            &&& rows2 == rows
            &&& cols2 == cols
            &&& entrywise(
                |e: T, p: T| call_ensures(N::multiply, (numbers, e, x), p),
                data,
                scaled,
            )
        },
        BinaryAction::DivideMatrix => {
            &&& left matches ValueView::Matrix { data, rows, cols }
            &&& right matches ValueView::Scalar(x)
            &&& result matches ValueView::Matrix { data: scaled, rows: rows2, cols: cols2 }
            &&& rows2 == rows
            &&& cols2 == cols
            &&& entrywise(|e: T, q: T| call_ensures(N::divide, (numbers, e, x), q), data, scaled)
        },
        BinaryAction::MultiplyMatrices => exists|zero: T|
            {
                &&& left matches ValueView::Matrix { data: l, rows, cols: inner }
                &&& right matches ValueView::Matrix { data: r, cols: width, .. }
                &&& result matches ValueView::Matrix { data: product, rows: rows2, cols: cols2 }
                &&& rows2 == rows
                &&& cols2 == width
                &&& #[trigger] call_ensures(N::zero, (numbers,), zero)
                &&& is_product(
                    product_step(numbers),
                    zero,
                    l,
                    r,
                    rows as int,
                    inner as int,
                    width as int,
                    product,
                )
            },
        BinaryAction::PowerMatrix { power } => exists|zero: T|
            {
                &&& left matches ValueView::Matrix { data: base, rows, cols }
                &&& result matches ValueView::Matrix { data: raised, rows: rows2, cols: cols2 }
                &&& rows2 == rows
                &&& cols2 == cols
                &&& #[trigger] call_ensures(N::zero, (numbers,), zero)
                &&& is_power(product_step(numbers), zero, base, rows as int, power as nat, raised)
            },
    }
}

/// `operand` is what the operand rules read of a right operand: of a
/// matrix its shape, of a scalar what the numbers read of it.
pub open spec fn reads_operand<T: Copy, N: Numbers<T>>(
    numbers: &N,
    value: ValueView<T>,
    operand: Operand,
) -> bool {
    match value {
        ValueView::Scalar(x) => operand matches Operand::Scalar(reading) && call_ensures(
            N::reading,
            (numbers, x),
            reading,
        ),
        ValueView::Matrix { rows, cols, .. } => operand == (Operand::Matrix {
            rows: rows as usize,
            cols: cols as usize,
        }),
    }
}

/// The outcome of a unary operator on an operand: the error that the rules
/// give, or what the operation that they name makes of the operand.
pub open spec fn unary_step<T: Copy, N: Numbers<T>>(
    numbers: &N,
    operator: TokenType,
    operand: ValueView<T>,
    outcome: Outcome<T>,
) -> bool {
    match unary_outcome(operator, content_shape(operand)) {
        Err(error) => outcome == Err::<ValueView<T>, RuntimeError>(error),
        Ok(action) => outcome matches Ok(result) && applies_unary(numbers, action, operand, result),
    }
}

/// The outcome of a binary operator on two operands: the error that the
/// rules give, or what the operation that they name makes of the operands.
pub open spec fn binary_step<T: Copy, N: Numbers<T>>(
    numbers: &N,
    operator: TokenType,
    left: ValueView<T>,
    right: ValueView<T>,
    outcome: Outcome<T>,
) -> bool {
    exists|operand: Operand| #[trigger]
        reads_operand(numbers, right, operand) && match binary_outcome(
            operator,
            content_shape(left),
            operand,
        ) {
            Err(error) => outcome == Err::<ValueView<T>, RuntimeError>(error),
            Ok(action) => outcome matches Ok(result) && applies_binary(
                numbers,
                action,
                left,
                right,
                result,
            ),
        }
}

/// The outcome of a unary operator, given the outcome of its operand: the
/// error of the operand, or what the operator makes of its value.
pub open spec fn through_unary<T: Copy, N: Numbers<T>>(
    numbers: &N,
    operator: TokenType,
    operand: Outcome<T>,
    outcome: Outcome<T>,
) -> bool {
    match operand {
        Err(error) => outcome == Err::<ValueView<T>, RuntimeError>(error),
        Ok(value) => unary_step(numbers, operator, value, outcome),
    }
}

/// The outcome of a binary operator, given the outcomes of its operands:
/// the error of the left operand, else the error of the right one, else
/// what the operator makes of their values.
pub open spec fn through_binary<T: Copy, N: Numbers<T>>(
    numbers: &N,
    operator: TokenType,
    left: Outcome<T>,
    right: Outcome<T>,
    outcome: Outcome<T>,
) -> bool {
    match left {
        Err(error) => outcome == Err::<ValueView<T>, RuntimeError>(error),
        Ok(l) => match right {
            Err(error) => outcome == Err::<ValueView<T>, RuntimeError>(error),
            Ok(r) => binary_step(numbers, operator, l, r, outcome),
        },
    }
}

/// `outcome` is what evaluating `expression` comes to when the variables
/// are bound as `globals` says.  The right operand of a binary operator is
/// evaluated only if the left one gave a value.
pub open spec fn evaluates<T: Copy, N: Numbers<T>>(
    numbers: &N,
    globals: Map<Seq<char>, Value<T>>,
    expression: Expression,
    outcome: Outcome<T>,
) -> bool
    decreases expression,
{
    match expression {
        Expression::Literal(literal) => literal_outcome(numbers, literal.value, outcome),
        Expression::Identifier(identifier) => if globals.contains_key(identifier.name@) {
            outcome == Ok::<ValueView<T>, RuntimeError>(globals[identifier.name@].content())
        } else {
            outcome == Err::<ValueView<T>, RuntimeError>(RuntimeError::UndefinedVariable)
        },
        Expression::Grouping(grouping) => evaluates(
            numbers,
            globals,
            *grouping.expression,
            outcome,
        ),
        Expression::Unary(unary) => exists|operand: Outcome<T>|
            {
                &&& #[trigger] chosen(operand)
                &&& evaluates(numbers, globals, *unary.right, operand)
                &&& through_unary(numbers, unary.operator.token_type, operand, outcome)
            },
        Expression::Binary(binary) => exists|left: Outcome<T>, right: Outcome<T>|
            {
                &&& #[trigger] chosen((left, right))
                &&& evaluates(numbers, globals, *binary.left, left)
                &&& left is Ok ==> evaluates(numbers, globals, *binary.right, right)
                &&& through_binary(numbers, binary.operator.token_type, left, right, outcome)
            },
    }
}

/// What a statement leaves behind: the text it printed, and the variables
/// as they are bound after it.
pub struct After<T> {
    pub output: Seq<char>,
    pub globals: Map<Seq<char>, Value<T>>,
}

/// How a run ends: the text printed in all, the variables as they are bound
/// at the end, and the error that ended the run, if one did.
pub struct Ending<T> {
    pub output: Seq<char>,
    pub globals: Map<Seq<char>, Value<T>>,
    pub error: Option<RuntimeError>,
}

/// `texts` holds, for each number of `value`, the text that the number
/// prints as.
pub open spec fn shows<T: Copy, N: Numbers<T>>(
    numbers: &N,
    value: ValueView<T>,
    texts: Value<String>,
) -> bool {
    match value {
        ValueView::Scalar(x) => texts.data matches ValueType::SCALAR(s) && call_ensures(
            N::text,
            (numbers, x),
            s.data,
        ),
        ValueView::Matrix { data, rows, cols } => {
            &&& texts.data matches ValueType::MATRIX(m)
            &&& m.rows == rows
            &&& m.cols == cols
            &&& m.data@.len() == data.len()
            &&& forall|k: int|
                0 <= k < data.len() ==> call_ensures(
                    N::text,
                    (numbers, data[k]),
                    #[trigger] m.data@[k],
                )
        },
    }
}

/// `outcome` is what running `statement` comes to when the variables are
/// bound as `globals` says: an expression statement evaluates and prints
/// nothing; `print` prints the value; `let` binds the value to its name,
/// in place of what was bound to it before; `newline` prints empty
/// lines.  An error in the expression is the outcome of the statement.
pub open spec fn executes<T: Copy, N: Numbers<T>>(
    numbers: &N,
    globals: Map<Seq<char>, Value<T>>,
    statement: Statement,
    outcome: Result<After<T>, RuntimeError>,
) -> bool {
    match statement {
        Statement::Expression(s) => exists|value: Outcome<T>|
            {
                &&& #[trigger] chosen(value)
                &&& evaluates(numbers, globals, *s.expression, value)
                &&& match value {
                    Err(error) => outcome == Err::<After<T>, RuntimeError>(error),
                    Ok(_) => outcome == Ok::<After<T>, RuntimeError>(
                        After { output: Seq::empty(), globals },
                    ),
                }
            },
        Statement::Print(s) => exists|value: Outcome<T>, texts: Value<String>|
            {
                &&& #[trigger] chosen((value, texts))
                &&& evaluates(numbers, globals, *s.expression, value)
                &&& match value {
                    Err(error) => outcome == Err::<After<T>, RuntimeError>(error),
                    Ok(v) => shows(numbers, v, texts) && outcome == Ok::<After<T>, RuntimeError>(
                        After { output: printed(texts@), globals },
                    ),
                }
            },
        Statement::Let(s) => exists|value: Outcome<T>, bound: Value<T>|
            {
                &&& #[trigger] chosen((value, bound))
                &&& evaluates(numbers, globals, *s.initializer, value)
                &&& match value {
                    Err(error) => outcome == Err::<After<T>, RuntimeError>(error),
                    Ok(v) => bound.content() == v && outcome == Ok::<After<T>, RuntimeError>(
                        After {
                            output: Seq::empty(),
                            globals: globals.insert(s.name.lexeme@, bound),
                        },
                    ),
                }
            },
        Statement::NewLine(s) => outcome == Ok::<After<T>, RuntimeError>(
            After { output: blank_lines(s.lines as nat), globals },
        ),
    }
}

/// `ending` is how running the statements from index `from` on ends when
/// the variables are bound as `globals` says.  The statements run in
/// order; the first error ends the run, and nothing behind it runs.
pub open spec fn runs<T: Copy, N: Numbers<T>>(
    numbers: &N,
    globals: Map<Seq<char>, Value<T>>,
    statements: Seq<Statement>,
    from: int,
    ending: Ending<T>,
) -> bool
    decreases statements.len() - from,
{
    if from < 0 || from >= statements.len() {
        ending == (Ending { output: Seq::empty(), globals, error: None })
    } else {
        exists|step: Result<After<T>, RuntimeError>, rest: Ending<T>|
            {
                &&& #[trigger] chosen((step, rest))
                &&& executes(numbers, globals, statements[from], step)
                &&& match step {
                    Err(error) => ending == (Ending {
                        output: Seq::empty(),
                        globals,
                        error: Some(error),
                    }),
                    Ok(after) => runs(numbers, after.globals, statements, from + 1, rest)
                        && ending == (Ending {
                        output: after.output + rest.output,
                        globals: rest.globals,
                        error: rest.error,
                    }),
                }
            }
    }
}

/// A run that starts with a statement that fails ends with its error.
pub proof fn lemma_runs_into_error<T: Copy, N: Numbers<T>>(
    numbers: &N,
    globals: Map<Seq<char>, Value<T>>,
    statements: Seq<Statement>,
    from: int,
    error: RuntimeError,
)
    requires
        0 <= from < statements.len(),
        executes(numbers, globals, statements[from], Err::<After<T>, RuntimeError>(error)),
    ensures
        runs(
            numbers,
            globals,
            statements,
            from,
            Ending { output: Seq::empty(), globals, error: Some(error) },
        ),
{
    let step = Err::<After<T>, RuntimeError>(error);
    let rest = Ending { output: Seq::empty(), globals, error: Some(error) };
    assert(chosen((step, rest)));
}

/// A run that starts with a statement that succeeds goes on behind it.
pub proof fn lemma_runs_on<T: Copy, N: Numbers<T>>(
    numbers: &N,
    globals: Map<Seq<char>, Value<T>>,
    statements: Seq<Statement>,
    from: int,
    after: After<T>,
    rest: Ending<T>,
)
    requires
        0 <= from < statements.len(),
        executes(numbers, globals, statements[from], Ok::<After<T>, RuntimeError>(after)),
        runs(numbers, after.globals, statements, from + 1, rest),
    ensures
        runs(
            numbers,
            globals,
            statements,
            from,
            Ending {
                output: after.output + rest.output,
                globals: rest.globals,
                error: rest.error,
            },
        ),
{
    let step = Ok::<After<T>, RuntimeError>(after);
    assert(chosen((step, rest)));
}

/// A unary expression evaluates to an outcome if its operand evaluates to
/// something that the operator takes to that outcome.
pub proof fn lemma_evaluates_unary<T: Copy, N: Numbers<T>>(
    numbers: &N,
    globals: Map<Seq<char>, Value<T>>,
    expression: Expression,
    operand: Outcome<T>,
    outcome: Outcome<T>,
)
    requires
        expression is Unary,
        evaluates(numbers, globals, *expression->Unary_0.right, operand),
        through_unary(numbers, expression->Unary_0.operator.token_type, operand, outcome),
    ensures
        evaluates(numbers, globals, expression, outcome),
{
    assert(chosen(operand));
}

/// A binary expression evaluates to an outcome if its operands evaluate,
/// the left before the right and the right only behind a value, to
/// something that the operator takes to that outcome.
pub proof fn lemma_evaluates_binary<T: Copy, N: Numbers<T>>(
    numbers: &N,
    globals: Map<Seq<char>, Value<T>>,
    expression: Expression,
    left: Outcome<T>,
    right: Outcome<T>,
    outcome: Outcome<T>,
)
    requires
        expression is Binary,
        evaluates(numbers, globals, *expression->Binary_0.left, left),
        left is Ok ==> evaluates(numbers, globals, *expression->Binary_0.right, right),
        through_binary(numbers, expression->Binary_0.operator.token_type, left, right, outcome),
    ensures
        evaluates(numbers, globals, expression, outcome),
{
    assert(chosen((left, right)));
}

/// The rows and columns of a matrix are numbers that a machine word holds.
pub open spec fn countable<T>(value: ValueView<T>) -> bool {
    match value {
        ValueView::Scalar(_) => true,
        ValueView::Matrix { rows, cols, .. } => rows <= usize::MAX && cols <= usize::MAX,
    }
}

/// Adding two matrices, and subtracting one from another, gives a value if
/// and only if the two have the same number of rows and the same number of
/// columns; it is an error otherwise.
pub proof fn lemma_matrix_sum_outcome<T: Copy, N: Numbers<T>>(
    numbers: &N,
    operator: TokenType,
    left: ValueView<T>,
    right: ValueView<T>,
    outcome: Outcome<T>,
)
    requires
        operator == TokenType::TOKEN_PLUS || operator == TokenType::TOKEN_MINUS,
        left is Matrix,
        right is Matrix,
        countable(left),
        countable(right),
        binary_step(numbers, operator, left, right, outcome),
    ensures
        outcome is Ok <==> left->rows == right->rows && left->cols == right->cols,
        outcome is Ok ==> outcome->Ok_0 is Matrix && outcome->Ok_0->rows == left->rows
            && outcome->Ok_0->cols == left->cols,
{
}

/// Multiplying two matrices gives a value if and only if the left has as
/// many columns as the right has rows; the product then has the rows of
/// the left and the columns of the right.
pub proof fn lemma_matrix_product_outcome<T: Copy, N: Numbers<T>>(
    numbers: &N,
    left: ValueView<T>,
    right: ValueView<T>,
    outcome: Outcome<T>,
)
    requires
        left is Matrix,
        right is Matrix,
        countable(left),
        countable(right),
        binary_step(numbers, TokenType::TOKEN_STAR, left, right, outcome),
    ensures
        outcome is Ok <==> left->cols == right->rows,
        outcome is Ok ==> outcome->Ok_0 is Matrix && outcome->Ok_0->rows == left->rows
            && outcome->Ok_0->cols == right->cols,
{
}

/// Dividing by a scalar that reads as exactly zero is an error, whatever
/// is divided: a scalar or a matrix.
pub proof fn lemma_division_by_zero_outcome<T: Copy, N: Numbers<T>>(
    numbers: &N,
    left: ValueView<T>,
    divisor: T,
    outcome: Outcome<T>,
)
    requires
        forall|reading: crate::interpreter::Reading| #[trigger]
            call_ensures(N::reading, (numbers, divisor), reading) ==> reading.zero,
        binary_step(numbers, TokenType::TOKEN_SLASH, left, ValueView::Scalar(divisor), outcome),
    ensures
        outcome == Err::<ValueView<T>, RuntimeError>(RuntimeError::DivideByZero),
{
}

/// Transposing a matrix twice gives the matrix back.
pub proof fn lemma_double_transpose_outcome<T: Copy, N: Numbers<T>>(
    numbers: &N,
    matrix: ValueView<T>,
    once: Outcome<T>,
    twice: Outcome<T>,
)
    requires
        matrix is Matrix,
        matrix.well_formed(),
        countable(matrix),
        unary_step(numbers, TokenType::TOKEN_TRANSPOSE, matrix, once),
        once is Ok,
        unary_step(numbers, TokenType::TOKEN_TRANSPOSE, once->Ok_0, twice),
    ensures
        twice == Ok::<ValueView<T>, RuntimeError>(matrix),
{
    crate::value::lemma_transpose_involution(matrix->data, matrix->rows, matrix->cols);
}

/// The identity matrix times a matrix is that matrix, entry for entry,
/// over numbers of which this much holds: the texts `0` and `1` denote
/// `zero` and `one`, and a step of the product is neutral on the entries
/// of the matrix.
pub proof fn lemma_identity_product_outcome<T: Copy, N: Numbers<T>>(
    numbers: &N,
    literal: Value<String>,
    zero: T,
    one: T,
    identity: Outcome<T>,
    matrix: ValueView<T>,
    outcome: Outcome<T>,
)
    requires
        matrix is Matrix,
        matrix.well_formed(),
        countable(matrix),
        literal@ == (ValueView::Matrix {
            data: identity_entries(matrix->rows, "0"@, "1"@),
            rows: matrix->rows,
            cols: matrix->rows,
        }),
        forall|text: String, x: T|
            text@ == "0"@ && #[trigger] call_ensures(N::number, (numbers, &text), x) ==> x == zero,
        forall|text: String, x: T|
            text@ == "1"@ && #[trigger] call_ensures(N::number, (numbers, &text), x) ==> x == one,
        forall|z: T| #[trigger] call_ensures(N::zero, (numbers,), z) ==> z == zero,
        neutral(product_step(numbers), zero, one, matrix->data),
        literal_outcome(numbers, literal, identity),
        identity is Ok ==> binary_step(
            numbers,
            TokenType::TOKEN_STAR,
            identity->Ok_0,
            matrix,
            outcome,
        ),
    ensures
        identity == Ok::<ValueView<T>, RuntimeError>(
            ValueView::Matrix {
                data: identity_entries(matrix->rows, zero, one),
                rows: matrix->rows,
                cols: matrix->rows,
            },
        ),
        outcome == Ok::<ValueView<T>, RuntimeError>(matrix),
{
    let size = matrix->rows;
    let texts = literal.data->MATRIX_0.data@;
    let read = identity->Ok_0->data;
    let target = identity_entries(size, zero, one);
    assert(entry_views(texts) == identity_entries(size, "0"@, "1"@));
    assert(read.len() == target.len());
    assert forall|k: int| 0 <= k < read.len() implies read[k] == target[k] by {
        assert(call_ensures(N::number, (numbers, &texts[k]), read[k]));
        assert(entry_views(texts)[k] == texts[k]@);
    }
    assert(read =~= target);
    let product = outcome->Ok_0->data;
    crate::arithmetic::lemma_identity_product(
        product_step(numbers),
        zero,
        one,
        matrix->data,
        size as int,
        matrix->cols as int,
        product,
    );
}

/// The same of a whole expression: where the left operand of `*` is the
/// literal of the identity matrix, and the right operand can only come to
/// `matrix`, the product can only come to `matrix`.
pub proof fn lemma_identity_product_evaluates<T: Copy, N: Numbers<T>>(
    numbers: &N,
    globals: Map<Seq<char>, Value<T>>,
    expression: Expression,
    zero: T,
    one: T,
    matrix: ValueView<T>,
    outcome: Outcome<T>,
)
    requires
        matrix is Matrix,
        matrix.well_formed(),
        countable(matrix),
        expression is Binary,
        expression->Binary_0.operator.token_type == TokenType::TOKEN_STAR,
        *expression->Binary_0.left is Literal,
        (*expression->Binary_0.left)->Literal_0.value@ == (ValueView::Matrix {
            data: identity_entries(matrix->rows, "0"@, "1"@),
            rows: matrix->rows,
            cols: matrix->rows,
        }),
        forall|right: Outcome<T>| #[trigger]
            evaluates(numbers, globals, *expression->Binary_0.right, right) ==> right == Ok::<
                ValueView<T>,
                RuntimeError,
            >(matrix),
        forall|text: String, x: T|
            text@ == "0"@ && #[trigger] call_ensures(N::number, (numbers, &text), x) ==> x == zero,
        forall|text: String, x: T|
            text@ == "1"@ && #[trigger] call_ensures(N::number, (numbers, &text), x) ==> x == one,
        forall|z: T| #[trigger] call_ensures(N::zero, (numbers,), z) ==> z == zero,
        neutral(product_step(numbers), zero, one, matrix->data),
        evaluates(numbers, globals, expression, outcome),
    ensures
        outcome == Ok::<ValueView<T>, RuntimeError>(matrix),
{
    let binary = expression->Binary_0;
    let (left, right) = choose|pair: (Outcome<T>, Outcome<T>)|
        {
            &&& #[trigger] chosen(pair)
            &&& evaluates(numbers, globals, *binary.left, pair.0)
            &&& pair.0 is Ok ==> evaluates(numbers, globals, *binary.right, pair.1)
            &&& through_binary(numbers, binary.operator.token_type, pair.0, pair.1, outcome)
        };
    lemma_identity_product_outcome(
        numbers,
        (*binary.left)->Literal_0.value,
        zero,
        one,
        left,
        matrix,
        outcome,
    );
}

/// Reducing a matrix twice gives what reducing it once gives, wherever the
/// first reduction ends in a matrix that is in reduced row echelon form,
/// with its pivots in the columns `leads`, and the numbers are steady on
/// its entries.
pub proof fn lemma_double_reduction_outcome<T: Copy, N: Numbers<T>>(
    numbers: &N,
    zero: T,
    one: T,
    matrix: ValueView<T>,
    once: Outcome<T>,
    leads: Seq<int>,
    twice: Outcome<T>,
)
    requires
        matrix is Matrix,
        matrix.well_formed(),
        countable(matrix),
        unary_step(numbers, TokenType::TOKEN_RREF, matrix, once),
        once is Ok ==> {
            &&& once->Ok_0.well_formed()
            &&& steady(numbers, zero, one, once->Ok_0->data)
            &&& is_reduced(
                numbers,
                zero,
                one,
                once->Ok_0->data,
                matrix->rows as int,
                matrix->cols as int,
                leads,
            )
            &&& unary_step(numbers, TokenType::TOKEN_RREF, once->Ok_0, twice)
        },
    ensures
        once is Ok,
        twice == once,
{
    let reduced = once->Ok_0;
    crate::reduced::lemma_reduced_stays(
        numbers,
        zero,
        one,
        reduced->data,
        matrix->rows as int,
        matrix->cols as int,
        leads,
        twice->Ok_0->data,
    );
}

} // verus!
