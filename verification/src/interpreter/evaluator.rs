//! Evaluation: the tree walk over expressions and statements.

use vstd::prelude::*;
use vstd::string::*;
use crate::arithmetic::lemma_power_by_implied_steps;
use crate::arithmetic::lemma_product_by_implied_steps;
use crate::arithmetic::steps_of;
use crate::ast::expression::Expression;
use crate::ast::expression::numeric_value;
use crate::ast::statement::Statement;
use crate::interpreter::BinaryAction;
use crate::interpreter::Interpreter;
use crate::interpreter::Operand;
use crate::interpreter::RuntimeError;
use crate::interpreter::UnaryAction;
use crate::interpreter::visit_binary;
use crate::interpreter::visit_unary;
use crate::interpreter::semantics::After;
use crate::interpreter::semantics::applies_binary;
use crate::interpreter::semantics::binary_step;
use crate::interpreter::semantics::Ending;
use crate::interpreter::semantics::evaluates;
use crate::interpreter::semantics::executes;
use crate::interpreter::semantics::lemma_evaluates_binary;
use crate::interpreter::semantics::lemma_evaluates_unary;
use crate::interpreter::semantics::lemma_runs_into_error;
use crate::interpreter::semantics::lemma_runs_on;
use crate::interpreter::semantics::literal_outcome;
use crate::interpreter::semantics::Outcome;
use crate::interpreter::semantics::product_step;
use crate::interpreter::semantics::reads_operand;
use crate::interpreter::semantics::runs;
use crate::interpreter::semantics::shows;
use crate::interpreter::semantics::unary_step;
use crate::numbers::Numbers;
use crate::parser::numeral::is_number;
use crate::relations::chosen;
use crate::tokens::TokenType;
use crate::value::Matrix;
use crate::value::Scalar;
use crate::value::Value;
use crate::value::ValueType;

verus! {

/// The outcome that a result stands for: the content of its value, or its
/// error.
pub open spec fn outcome_of<T>(result: Result<Value<T>, RuntimeError>) -> Outcome<T> {
    match result {
        Ok(value) => Ok(value.content()),
        Err(error) => Err(error),
    }
}

/// The result is an error, or a value that is well formed.
pub open spec fn sound<T>(result: Result<Value<T>, RuntimeError>) -> bool {
    match result {
        Ok(value) => value.content().well_formed(),
        Err(_) => true,
    }
}

/// The value of a literal: each of its number texts read as a number.
pub fn read_literal<T: Copy, N: Numbers<T>>(numbers: &N, literal: &Value<String>) -> (result:
    Result<Value<T>, RuntimeError>)
    requires
        literal@.well_formed(),
        numeric_value(literal@),
    ensures
        literal_outcome(numbers, *literal, outcome_of(result)),
        result is Ok,
        sound(result),
{
    match &literal.data {
        ValueType::SCALAR(s) => Ok(Value::new_scalar(numbers.number(&s.data))),
        ValueType::MATRIX(m) => {
            let mut entries: Vec<T> = Vec::new();
            let mut i: usize = 0;
            proof {
                assert forall|k: int| 0 <= k < m.data@.len() implies is_number(
                    #[trigger] m.data@[k]@,
                ) by {
                    assert(literal@->data[k] == m.data@[k]@);
                }
            }
            while i < m.data.len()
                invariant
                    i <= m.data@.len(),
                    entries@.len() == i,
                    forall|k: int| 0 <= k < m.data@.len() ==> is_number(#[trigger] m.data@[k]@),
                    forall|k: int|
                        0 <= k < i ==> call_ensures(
                            N::number,
                            (numbers, &m.data@[k]),
                            #[trigger] entries@[k],
                        ),
                decreases m.data@.len() - i,
            {
                entries.push(numbers.number(&m.data[i]));
                i += 1;
            }
            Ok(Value::new_matrix(entries, m.rows, m.cols))
        },
    }
}

/// What a unary operator makes of an operand: the error that the operand
/// rules give, or the result of the operation that they name.
pub fn unary<T: Copy, N: Numbers<T>>(numbers: &N, operator: TokenType, operand: Value<T>) -> (result:
    Result<Value<T>, RuntimeError>)
    requires
        operand.content().well_formed(),
    ensures
        unary_step(numbers, operator, operand.content(), outcome_of(result)),
        sound(result),
{
    let action = match visit_unary(operator, operand.shape()) {
        Ok(action) => action,
        Err(error) => {
            return Err(error);
        },
    };
    match operand.data {
        ValueType::SCALAR(s) => {
            assert(action == UnaryAction::NegateScalar);
            Ok(Value::new_scalar(numbers.negate(s.data)))
        },
        ValueType::MATRIX(m) => {
            let mut m = m;
            match action {
                UnaryAction::NegateScalar => {
                    assert(false);
                    Err(RuntimeError::InvalidUnaryOperator)
                },
                UnaryAction::NegateMatrix => {
                    let negate = |a: T| -> (b: T)
                        ensures
                            call_ensures(N::negate, (numbers, a), b),
                        { numbers.negate(a) };
                    m.map_entries(&negate);
                    Ok(Value::wrap_matrix(m))
                },
                UnaryAction::Transpose => {
                    m.transpose();
                    Ok(Value::wrap_matrix(m))
                },
                UnaryAction::RowEchelon => {
                    m.ref_matrix(numbers);
                    Ok(Value::wrap_matrix(m))
                },
                UnaryAction::ReducedRowEchelon => {
                    m.rref_matrix(numbers);
                    Ok(Value::wrap_matrix(m))
                },
                UnaryAction::Inverse => {
                    let inverted = m.inverse(numbers);
                    assert(inverted);
                    Ok(Value::wrap_matrix(m))
                },
            }
        },
    }
}

/// What a binary operator makes of two operands: the error that the
/// operand rules give, or the result of the operation that they name.
pub fn binary<T: Copy, N: Numbers<T>>(
    numbers: &N,
    operator: TokenType,
    left: Value<T>,
    right: Value<T>,
) -> (result: Result<Value<T>, RuntimeError>)
    requires
        left.content().well_formed(),
        right.content().well_formed(),
    ensures
        binary_step(numbers, operator, left.content(), right.content(), outcome_of(result)),
        sound(result),
{
    let operand = match &right.data {
        ValueType::SCALAR(s) => Operand::Scalar(numbers.reading(s.data)),
        ValueType::MATRIX(m) => Operand::Matrix { rows: m.rows, cols: m.cols },
    };
    assert(reads_operand(numbers, right.content(), operand));
    let action = match visit_binary(operator, left.shape(), operand) {
        Ok(action) => action,
        Err(error) => {
            return Err(error);
        },
    };
    let multiply_add = |sum: T, a: T, b: T| -> (next: T)
        ensures
            call_ensures(N::multiply_add, (numbers, sum, a, b), next),
        { numbers.multiply_add(sum, a, b) };
    let ghost left_content = left.content();
    let ghost right_content = right.content();
    let value = match left.data {
        ValueType::SCALAR(a) => match right.data {
            ValueType::SCALAR(b) => match action {
                BinaryAction::AddScalars => Value::new_scalar(numbers.add(a.data, b.data)),
                BinaryAction::SubtractScalars => Value::new_scalar(
                    numbers.subtract(a.data, b.data),
                ),
                BinaryAction::MultiplyScalars => Value::new_scalar(
                    numbers.multiply(a.data, b.data),
                ),
                BinaryAction::DivideScalars => Value::new_scalar(numbers.divide(a.data, b.data)),
                BinaryAction::PowerScalars => Value::new_scalar(numbers.power(a.data, b.data)),
                _ => {
                    assert(false);
                    Value::new_scalar(a.data)
                },
            },
            ValueType::MATRIX(m) => {
                assert(action == BinaryAction::ScaleRight);
                let mut m = m;
                let multiply = |e: T, x: T| -> (p: T)
                    ensures
                        call_ensures(N::multiply, (numbers, e, x), p),
                    { numbers.multiply(e, x) };
                m.scale(a.data, &multiply);
                Value::wrap_matrix(m)
            },
        },
        ValueType::MATRIX(l) => match right.data {
            ValueType::SCALAR(x) => match action {
                BinaryAction::ScaleLeft => {
                    let mut m = l;
                    let multiply = |e: T, x: T| -> (p: T)
                        ensures
                            call_ensures(N::multiply, (numbers, e, x), p),
                        { numbers.multiply(e, x) };
                    m.scale(x.data, &multiply);
                    Value::wrap_matrix(m)
                },
                BinaryAction::DivideMatrix => {
                    let mut m = l;
                    let divide = |e: T, x: T| -> (q: T)
                        ensures
                            call_ensures(N::divide, (numbers, e, x), q),
                        { numbers.divide(e, x) };
                    m.scale(x.data, &divide);
                    Value::wrap_matrix(m)
                },
                BinaryAction::PowerMatrix { power } => {
                    let zero = numbers.zero();
                    let raised = l.power(power, zero, &multiply_add);
                    proof {
                        lemma_power_by_implied_steps(
                            steps_of(multiply_add),
                            product_step(numbers),
                            zero,
                            l.data@,
                            l.rows as int,
                            power as nat,
                            raised.data@,
                        );
                    }
                    Value::wrap_matrix(raised)
                },
                _ => {
                    assert(false);
                    Value::wrap_matrix(l)
                },
            },
            ValueType::MATRIX(r) => match action {
                BinaryAction::AddMatrices => {
                    let add = |a: T, b: T| -> (c: T)
                        ensures
                            call_ensures(N::add, (numbers, a, b), c),
                        { numbers.add(a, b) };
                    Value::wrap_matrix(l.combined(&r, &add))
                },
                BinaryAction::SubtractMatrices => {
                    let subtract = |a: T, b: T| -> (c: T)
                        ensures
                            call_ensures(N::subtract, (numbers, a, b), c),
                        { numbers.subtract(a, b) };
                    Value::wrap_matrix(l.combined(&r, &subtract))
                },
                BinaryAction::MultiplyMatrices => {
                    let zero = numbers.zero();
                    let product = l.product(&r, zero, &multiply_add);
                    proof {
                        lemma_product_by_implied_steps(
                            steps_of(multiply_add),
                            product_step(numbers),
                            zero,
                            l.data@,
                            r.data@,
                            l.rows as int,
                            l.cols as int,
                            r.cols as int,
                            product.data@,
                        );
                    }
                    Value::wrap_matrix(product)
                },
                _ => {
                    assert(false);
                    Value::wrap_matrix(l)
                },
            },
        },
    };
    assert(applies_binary(numbers, action, left_content, right_content, value.content()));
    Ok(value)
}

impl<T: Copy> Interpreter<T> {
    /// Every value bound to a variable is well formed.
    pub open spec fn well_formed(&self) -> bool {
        forall|name: Seq<char>|
            self.globals@.contains_key(name) ==> (#[trigger] self.globals@[name]).content().well_formed()
    }

    /// The value of an expression, or the first error that evaluating it
    /// runs into.
    pub fn evaluate<N: Numbers<T>>(&self, expression: &Expression, numbers: &N) -> (result: Result<
        Value<T>,
        RuntimeError,
    >)
        requires
            self.well_formed(),
            crate::ast::expression::well_formed(expression@),
            crate::ast::expression::numeric(expression@),
        ensures
            evaluates(numbers, self.globals@, *expression, outcome_of(result)),
            sound(result),
        decreases expression,
    {
        match expression {
            Expression::Literal(literal) => read_literal(numbers, &literal.value),
            Expression::Identifier(identifier) => match self.visit_identifier(identifier) {
                Ok(value) => Ok(value.duplicate()),
                Err(error) => Err(error),
            },
            Expression::Grouping(grouping) => self.evaluate(&grouping.expression, numbers),
            Expression::Unary(unary_node) => {
                let operand = self.evaluate(&unary_node.right, numbers);
                let ghost inner = outcome_of(operand);
                let result = match operand {
                    Ok(value) => unary(numbers, unary_node.operator.token_type, value),
                    Err(error) => Err(error),
                };
                proof {
                    lemma_evaluates_unary(
                        numbers,
                        self.globals@,
                        *expression,
                        inner,
                        outcome_of(result),
                    );
                }
                result
            },
            Expression::Binary(binary_node) => {
                let left = self.evaluate(&binary_node.left, numbers);
                let ghost first = outcome_of(left);
                match left {
                    Ok(l) => {
                        let right = self.evaluate(&binary_node.right, numbers);
                        let ghost second = outcome_of(right);
                        let result = match right {
                            Ok(r) => binary(numbers, binary_node.operator.token_type, l, r),
                            Err(error) => Err(error),
                        };
                        proof {
                            lemma_evaluates_binary(
                                numbers,
                                self.globals@,
                                *expression,
                                first,
                                second,
                                outcome_of(result),
                            );
                        }
                        result
                    },
                    Err(error) => {
                        proof {
                            lemma_evaluates_binary(
                                numbers,
                                self.globals@,
                                *expression,
                                first,
                                first,
                                first,
                            );
                        }
                        Err(error)
                    },
                }
            },
        }
    }
}

/// The value with each of its numbers as the text it prints as.
pub fn show<T: Copy, N: Numbers<T>>(numbers: &N, value: &Value<T>) -> (texts: Value<String>)
    requires
        value.content().well_formed(),
    ensures
        shows(numbers, value.content(), texts),
        texts.filled(),
{
    match &value.data {
        ValueType::SCALAR(s) => Value::new_scalar(numbers.text(s.data)),
        ValueType::MATRIX(m) => {
            let mut entries: Vec<String> = Vec::new();
            let mut i: usize = 0;
            while i < m.data.len()
                invariant
                    i <= m.data@.len(),
                    entries@.len() == i,
                    forall|k: int|
                        0 <= k < i ==> call_ensures(
                            N::text,
                            (numbers, m.data@[k]),
                            #[trigger] entries@[k],
                        ),
                decreases m.data@.len() - i,
            {
                entries.push(numbers.text(m.data[i]));
                i += 1;
            }
            Value::new_matrix(entries, m.rows, m.cols)
        },
    }
}

/// How a run ended: the text it printed, and the error that ended it, if
/// one did.
pub struct Run {
    pub output: String,
    pub error: Option<RuntimeError>,
}

/// What a statement left behind, as the semantics speaks of it.
pub open spec fn after_of<T>(result: Result<String, RuntimeError>, globals: Map<Seq<char>, Value<T>>)
    -> Result<After<T>, RuntimeError> {
    match result {
        Ok(text) => Ok(After { output: text@, globals }),
        Err(error) => Err(error),
    }
}

impl<T: Copy> Interpreter<T> {
    /// Runs one statement and gives the text it prints, or the error that
    /// evaluating its expression ran into.  Only a `let` that succeeds
    /// changes what is bound.
    pub fn execute<N: Numbers<T>>(&mut self, statement: &Statement, numbers: &N) -> (result: Result<
        String,
        RuntimeError,
    >)
        requires
            old(self).well_formed(),
            statement@.well_formed(),
            statement@.numeric(),
        ensures
            final(self).well_formed(),
            executes(
                numbers,
                old(self).globals@,
                *statement,
                after_of(result, final(self).globals@),
            ),
            result is Err ==> final(self).globals@ == old(self).globals@,
    {
        match statement {
            Statement::Expression(s) => {
                let value = self.evaluate(&s.expression, numbers);
                proof {
                    assert(chosen(outcome_of(value)));
                }
                match value {
                    Ok(_) => Ok(String::new()),
                    Err(error) => Err(error),
                }
            },
            Statement::Print(s) => {
                let value = self.evaluate(&s.expression, numbers);
                match value {
                    Ok(v) => {
                        let texts = show(numbers, &v);
                        proof {
                            assert(chosen((outcome_of(value), texts)));
                        }
                        Ok(texts.print())
                    },
                    Err(error) => {
                        proof {
                            let texts = Value::<String> {
                                data: ValueType::SCALAR(Scalar { data: arbitrary() }),
                            };
                            assert(chosen((outcome_of(value), texts)));
                        }
                        Err(error)
                    },
                }
            },
            Statement::Let(s) => {
                let value = self.evaluate(&s.initializer, numbers);
                match value {
                    Ok(v) => {
                        let ghost bound = v;
                        self.visit_let_statement(&s.name, v);
                        proof {
                            assert(chosen((outcome_of(value), bound)));
                        }
                        Ok(String::new())
                    },
                    Err(error) => {
                        proof {
                            let bound = Value::<T> {
                                data: ValueType::SCALAR(Scalar { data: arbitrary() }),
                            };
                            assert(chosen((outcome_of(value), bound)));
                        }
                        Err(error)
                    },
                }
            },
            Statement::NewLine(s) => Ok(self.visit_new_line_statement(s)),
        }
    }

    /// Runs the statements in order.  The first error ends the run: what
    /// was printed before it is kept, and nothing behind it runs.
    pub fn interpret<N: Numbers<T>>(&mut self, statements: &Vec<Statement>, numbers: &N) -> (run:
        Run)
        requires
            old(self).well_formed(),
            forall|i: int|
                0 <= i < statements@.len() ==> (#[trigger] statements@[i])@.well_formed(),
            forall|i: int| 0 <= i < statements@.len() ==> (#[trigger] statements@[i])@.numeric(),
        ensures
            final(self).well_formed(),
            runs(
                numbers,
                old(self).globals@,
                statements@,
                0,
                Ending { output: run.output@, globals: final(self).globals@, error: run.error },
            ),
    {
        let mut output = String::new();
        let mut i: usize = 0;
        let ghost start = self.globals@;
        while i < statements.len()
            invariant
                i <= statements@.len(),
                self.well_formed(),
                forall|i: int|
                    0 <= i < statements@.len() ==> (#[trigger] statements@[i])@.well_formed(),
                forall|i: int|
                    0 <= i < statements@.len() ==> (#[trigger] statements@[i])@.numeric(),
                start == old(self).globals@,
                forall|ending: Ending<T>| #[trigger]
                    runs(numbers, self.globals@, statements@, i as int, ending) ==> runs(
                        numbers,
                        start,
                        statements@,
                        0,
                        Ending {
                            output: output@ + ending.output,
                            globals: ending.globals,
                            error: ending.error,
                        },
                    ),
            decreases statements@.len() - i,
        {
            let ghost before = self.globals@;
            let ghost printed_before = output@;
            let step = self.execute(&statements[i], numbers);
            match step {
                Ok(text) => {
                    let ghost after = After { output: text@, globals: self.globals@ };
                    output.append(text.as_str());
                    proof {
                        assert forall|ending: Ending<T>| #[trigger]
                            runs(
                                numbers,
                                self.globals@,
                                statements@,
                                i + 1,
                                ending,
                            ) implies runs(
                            numbers,
                            start,
                            statements@,
                            0,
                            Ending {
                                output: output@ + ending.output,
                                globals: ending.globals,
                                error: ending.error,
                            },
                        ) by {
                            lemma_runs_on(numbers, before, statements@, i as int, after, ending);
                            assert(printed_before + (after.output + ending.output) =~= output@
                                + ending.output);
                        }
                    }
                },
                Err(error) => {
                    proof {
                        lemma_runs_into_error(numbers, before, statements@, i as int, error);
                        assert(printed_before + Seq::<char>::empty() =~= output@);
                    }
                    return Run { output, error: Some(error) };
                },
            }
            i += 1;
        }
        proof {
            assert(runs(
                numbers,
                self.globals@,
                statements@,
                i as int,
                Ending { output: Seq::empty(), globals: self.globals@, error: None },
            ));
            assert(output@ + Seq::<char>::empty() =~= output@);
        }
        Run { output, error: None }
    }
}

} // verus!
