use linalg::ast::astprinter::ASTPrinter;
use linalg::ast::expression::Binary;
use linalg::ast::expression::Expression;
use linalg::ast::expression::Identifier;
use linalg::ast::expression::Literal;
use linalg::ast::expression::Unary;
use linalg::ast::statement::NewLineStatement;
use linalg::ast::statement::Statement;
use linalg::environment::Environment;
use linalg::interpreter::evaluator::binary;
use linalg::interpreter::evaluator::read_literal;
use linalg::interpreter::evaluator::show;
use linalg::interpreter::evaluator::unary;
use linalg::interpreter::visit_binary;
use linalg::interpreter::visit_unary;
use linalg::interpreter::BinaryAction;
use linalg::interpreter::Exponent;
use linalg::interpreter::Interpreter;
use linalg::interpreter::Operand;
use linalg::interpreter::Reading;
use linalg::interpreter::RuntimeError;
use linalg::interpreter::Shape;
use linalg::interpreter::UnaryAction;
use linalg::lexer::Lexer;
use linalg::numbers::Numbers;
use linalg::parser::Parser;
use linalg::tokens::Token;
use linalg::tokens::TokenType;
use linalg::value::Value;
use linalg::value::ValueType;

fn scalar() -> Operand {
    Operand::Scalar(Reading {
        zero: false,
        exponent: Exponent::Whole(2),
    })
}

fn zero() -> Operand {
    Operand::Scalar(Reading {
        zero: true,
        exponent: Exponent::BelowOne,
    })
}

fn reads(exponent: Exponent) -> Operand {
    Operand::Scalar(Reading {
        zero: false,
        exponent,
    })
}

fn matrix(rows: usize, cols: usize) -> Operand {
    Operand::Matrix { rows, cols }
}

fn left(operand: Operand) -> Shape {
    match operand {
        Operand::Scalar(_) => Shape::Scalar,
        Operand::Matrix { rows, cols } => Shape::Matrix { rows, cols },
    }
}

fn shape(rows: usize, cols: usize) -> Shape {
    Shape::Matrix { rows, cols }
}

#[test]
fn negation_works_on_scalars_and_matrices() {
    assert_eq!(
        visit_unary(TokenType::TOKEN_MINUS, Shape::Scalar),
        Ok(UnaryAction::NegateScalar)
    );
    assert_eq!(
        visit_unary(TokenType::TOKEN_MINUS, shape(2, 3)),
        Ok(UnaryAction::NegateMatrix)
    );
}

#[test]
fn transposition_works_on_matrices_only() {
    assert_eq!(
        visit_unary(TokenType::TOKEN_TRANSPOSE, shape(2, 3)),
        Ok(UnaryAction::Transpose)
    );
    assert_eq!(
        visit_unary(TokenType::TOKEN_TRANSPOSE, Shape::Scalar),
        Err(RuntimeError::TransposeScalar)
    );
}

#[test]
fn reductions_work_on_matrices_only() {
    assert_eq!(
        visit_unary(TokenType::TOKEN_REF, shape(2, 3)),
        Ok(UnaryAction::RowEchelon)
    );
    assert_eq!(
        visit_unary(TokenType::TOKEN_REF, Shape::Scalar),
        Err(RuntimeError::RowEchelonScalar)
    );
    assert_eq!(
        visit_unary(TokenType::TOKEN_RREF, shape(2, 3)),
        Ok(UnaryAction::ReducedRowEchelon)
    );
    assert_eq!(
        visit_unary(TokenType::TOKEN_RREF, Shape::Scalar),
        Err(RuntimeError::ReducedRowEchelonScalar)
    );
}

#[test]
fn inverse_works_on_square_matrices_only() {
    assert_eq!(
        visit_unary(TokenType::TOKEN_INVERSE, shape(3, 3)),
        Ok(UnaryAction::Inverse)
    );
    assert_eq!(
        visit_unary(TokenType::TOKEN_INVERSE, shape(2, 3)),
        Err(RuntimeError::NotInvertible)
    );
    assert_eq!(
        visit_unary(TokenType::TOKEN_INVERSE, Shape::Scalar),
        Err(RuntimeError::InverseScalar)
    );
}

#[test]
fn other_tokens_are_no_unary_operators() {
    for operator in [
        TokenType::TOKEN_PLUS,
        TokenType::TOKEN_STAR,
        TokenType::TOKEN_BANG,
        TokenType::TOKEN_IDENTITY,
        TokenType::TOKEN_EOF,
    ] {
        assert_eq!(
            visit_unary(operator, Shape::Scalar),
            Err(RuntimeError::InvalidUnaryOperator)
        );
        assert_eq!(
            visit_unary(operator, shape(2, 2)),
            Err(RuntimeError::InvalidUnaryOperator)
        );
    }
}

#[test]
fn addition_rules() {
    let plus = TokenType::TOKEN_PLUS;
    assert_eq!(visit_binary(plus, left(scalar()), scalar()), Ok(BinaryAction::AddScalars));
    assert_eq!(
        visit_binary(plus, left(scalar()), matrix(2, 2)),
        Err(RuntimeError::AddScalarMatrix)
    );
    assert_eq!(
        visit_binary(plus, left(matrix(2, 2)), scalar()),
        Err(RuntimeError::AddScalarMatrix)
    );
    assert_eq!(
        visit_binary(plus, left(matrix(2, 3)), matrix(2, 3)),
        Ok(BinaryAction::AddMatrices)
    );
}

#[test]
fn subtraction_rules() {
    let minus = TokenType::TOKEN_MINUS;
    assert_eq!(
        visit_binary(minus, left(scalar()), scalar()),
        Ok(BinaryAction::SubtractScalars)
    );
    assert_eq!(
        visit_binary(minus, left(scalar()), matrix(2, 2)),
        Err(RuntimeError::SubtractMatrixFromScalar)
    );
    assert_eq!(
        visit_binary(minus, left(matrix(2, 2)), scalar()),
        Err(RuntimeError::SubtractScalarFromMatrix)
    );
    assert_eq!(
        visit_binary(minus, left(matrix(2, 3)), matrix(2, 3)),
        Ok(BinaryAction::SubtractMatrices)
    );
}

#[test]
fn matrices_add_and_subtract_only_in_equal_shapes() {
    for (rows, cols, rows2, cols2) in [
        (2, 3, 3, 2),
        (2, 3, 2, 2),
        (2, 3, 3, 3),
        (1, 1, 1, 2),
        (4, 4, 4, 4),
        (1, 6, 6, 1),
        (2, 3, 2, 3),
    ] {
        let same = rows == rows2 && cols == cols2;
        let sum = visit_binary(TokenType::TOKEN_PLUS, left(matrix(rows, cols)), matrix(rows2, cols2));
        let difference =
            visit_binary(TokenType::TOKEN_MINUS, left(matrix(rows, cols)), matrix(rows2, cols2));
        assert_eq!(sum.is_ok(), same);
        assert_eq!(difference.is_ok(), same);
        if !same {
            assert_eq!(sum, Err(RuntimeError::AddShapes));
            assert_eq!(difference, Err(RuntimeError::SubtractShapes));
        }
    }
}

#[test]
fn multiplication_rules() {
    let star = TokenType::TOKEN_STAR;
    assert_eq!(
        visit_binary(star, left(scalar()), scalar()),
        Ok(BinaryAction::MultiplyScalars)
    );
    assert_eq!(
        visit_binary(star, left(scalar()), matrix(2, 3)),
        Ok(BinaryAction::ScaleRight)
    );
    assert_eq!(
        visit_binary(star, left(matrix(2, 3)), scalar()),
        Ok(BinaryAction::ScaleLeft)
    );
    assert_eq!(
        visit_binary(star, left(matrix(2, 3)), matrix(3, 4)),
        Ok(BinaryAction::MultiplyMatrices)
    );
    assert_eq!(
        visit_binary(star, left(matrix(2, 3)), matrix(2, 3)),
        Err(RuntimeError::MultiplyShapes)
    );
}

#[test]
fn matrices_multiply_only_when_columns_meet_rows() {
    for (rows, cols, rows2, cols2) in [(2, 3, 3, 2), (2, 3, 2, 3), (1, 5, 5, 1), (5, 1, 5, 1)] {
        let product = visit_binary(TokenType::TOKEN_STAR, left(matrix(rows, cols)), matrix(rows2, cols2));
        assert_eq!(product.is_ok(), cols == rows2);
    }
}

#[test]
fn division_rules() {
    let slash = TokenType::TOKEN_SLASH;
    assert_eq!(
        visit_binary(slash, left(scalar()), scalar()),
        Ok(BinaryAction::DivideScalars)
    );
    assert_eq!(
        visit_binary(slash, left(matrix(2, 3)), scalar()),
        Ok(BinaryAction::DivideMatrix)
    );
    assert_eq!(
        visit_binary(slash, left(scalar()), matrix(2, 3)),
        Err(RuntimeError::DivideScalarByMatrix)
    );
    assert_eq!(
        visit_binary(slash, left(matrix(2, 3)), matrix(3, 2)),
        Err(RuntimeError::DivideMatrixByMatrix)
    );
}

#[test]
fn division_by_zero_is_an_error_whatever_is_divided() {
    let slash = TokenType::TOKEN_SLASH;
    assert_eq!(
        visit_binary(slash, left(scalar()), zero()),
        Err(RuntimeError::DivideByZero)
    );
    assert_eq!(
        visit_binary(slash, left(zero()), zero()),
        Err(RuntimeError::DivideByZero)
    );
    assert_eq!(
        visit_binary(slash, left(matrix(2, 3)), zero()),
        Err(RuntimeError::DivideByZero)
    );
    assert_eq!(
        visit_binary(slash, left(zero()), scalar()),
        Ok(BinaryAction::DivideScalars)
    );
}

#[test]
fn a_zero_scalar_divided_by_a_matrix_is_still_a_kind_error() {
    assert_eq!(
        visit_binary(TokenType::TOKEN_SLASH, left(zero()), matrix(2, 2)),
        Err(RuntimeError::DivideScalarByMatrix)
    );
}

#[test]
fn power_rules() {
    let caret = TokenType::TOKEN_CARET;
    assert_eq!(
        visit_binary(caret, left(scalar()), scalar()),
        Ok(BinaryAction::PowerScalars)
    );
    assert_eq!(
        visit_binary(caret, left(scalar()), reads(Exponent::Fractional)),
        Ok(BinaryAction::PowerScalars)
    );
    assert_eq!(
        visit_binary(caret, left(scalar()), matrix(2, 2)),
        Err(RuntimeError::PowerScalarToMatrix)
    );
    assert_eq!(
        visit_binary(caret, left(matrix(2, 2)), matrix(2, 2)),
        Err(RuntimeError::PowerMatrixToMatrix)
    );
    assert_eq!(
        visit_binary(caret, left(matrix(2, 2)), reads(Exponent::Whole(2))),
        Ok(BinaryAction::PowerMatrix { power: 2 })
    );
    assert_eq!(
        visit_binary(caret, left(matrix(3, 3)), reads(Exponent::Whole(1))),
        Ok(BinaryAction::PowerMatrix { power: 1 })
    );
}

#[test]
fn a_matrix_power_needs_a_square_matrix_first() {
    let caret = TokenType::TOKEN_CARET;
    assert_eq!(
        visit_binary(caret, left(matrix(2, 3)), reads(Exponent::Whole(2))),
        Err(RuntimeError::PowerNotSquare)
    );
    assert_eq!(
        visit_binary(caret, left(matrix(2, 3)), reads(Exponent::BelowOne)),
        Err(RuntimeError::PowerNotSquare)
    );
    assert_eq!(
        visit_binary(caret, left(matrix(2, 3)), reads(Exponent::Fractional)),
        Err(RuntimeError::PowerNotSquare)
    );
}

#[test]
fn a_matrix_power_needs_a_whole_exponent_of_at_least_one() {
    let caret = TokenType::TOKEN_CARET;
    assert_eq!(
        visit_binary(caret, left(matrix(2, 2)), reads(Exponent::BelowOne)),
        Err(RuntimeError::PowerBelowOne)
    );
    assert_eq!(
        visit_binary(caret, left(matrix(2, 2)), reads(Exponent::Whole(0))),
        Err(RuntimeError::PowerBelowOne)
    );
    assert_eq!(
        visit_binary(caret, left(matrix(2, 2)), reads(Exponent::Fractional)),
        Err(RuntimeError::PowerFractional)
    );
    assert_eq!(
        visit_binary(caret, left(matrix(2, 2)), reads(Exponent::Whole(u32::MAX))),
        Ok(BinaryAction::PowerMatrix { power: u32::MAX })
    );
}

#[test]
fn comparison_and_equality_are_unknown_operators() {
    for operator in [
        TokenType::TOKEN_EQUAL_EQUAL,
        TokenType::TOKEN_BANG_EQUAL,
        TokenType::TOKEN_LESS,
        TokenType::TOKEN_LESS_EQUAL,
        TokenType::TOKEN_GREATER,
        TokenType::TOKEN_GREATER_EQUAL,
        TokenType::TOKEN_TRANSPOSE,
    ] {
        assert_eq!(
            visit_binary(operator, left(scalar()), scalar()),
            Err(RuntimeError::UnknownOperator)
        );
        assert_eq!(
            visit_binary(operator, left(matrix(2, 2)), matrix(2, 2)),
            Err(RuntimeError::UnknownOperator)
        );
    }
}

#[test]
fn runtime_error_messages() {
    let expected = [
        (RuntimeError::UndefinedVariable, "Undefined variable."),
        (RuntimeError::TransposeScalar, "Cannot transpose a scalar."),
        (
            RuntimeError::RowEchelonScalar,
            "Cannot convert scalar to REF matrix",
        ),
        (
            RuntimeError::ReducedRowEchelonScalar,
            "Cannot convert scalar to RREF matrix",
        ),
        (
            RuntimeError::InverseScalar,
            "Cannot convert scalar to RREF matrix",
        ),
        (RuntimeError::NotInvertible, "Matrix is not invertible"),
        (RuntimeError::InvalidUnaryOperator, "Invalid unary operator"),
        (
            RuntimeError::AddScalarMatrix,
            "Cannot add a scalar to a matrix",
        ),
        (
            RuntimeError::AddShapes,
            "Cannot add matrices of different sizes",
        ),
        (
            RuntimeError::SubtractMatrixFromScalar,
            "Cannot subtract a matrix from a scalar",
        ),
        (
            RuntimeError::SubtractScalarFromMatrix,
            "Cannot subtract a scalar from a matrix",
        ),
        (
            RuntimeError::SubtractShapes,
            "Cannot subtract matrices of different sizes",
        ),
        (
            RuntimeError::MultiplyShapes,
            "Cannot multiply matrices of different sizes",
        ),
        (RuntimeError::DivideByZero, "Cannot divide by zero"),
        (
            RuntimeError::DivideScalarByMatrix,
            "Cannot divide a scalar by a matrix",
        ),
        (
            RuntimeError::DivideMatrixByMatrix,
            "Cannot divide a matrix by a matrix",
        ),
        (
            RuntimeError::PowerScalarToMatrix,
            "Cannot raise a scalar to a matrix",
        ),
        (
            RuntimeError::PowerNotSquare,
            "Cannot raise a singular matrix to a power",
        ),
        (
            RuntimeError::PowerBelowOne,
            "Cannot raise a matrix to a power less than 1",
        ),
        (
            RuntimeError::PowerFractional,
            "Cannot raise a matrix to a non-integer power",
        ),
        (
            RuntimeError::PowerMatrixToMatrix,
            "Cannot raise a matrix to a matrix",
        ),
        (RuntimeError::UnknownOperator, "Unknown operator"),
    ];
    for (error, text) in expected {
        assert_eq!(error.message(), text);
    }
}

#[test]
fn an_environment_starts_empty() {
    let environment: Environment<i64> = Environment::new();
    assert_eq!(environment.lookup(&"x".to_string()), None);
    assert_eq!(environment.lookup(&"".to_string()), None);
}

#[test]
fn a_name_reads_as_the_value_last_bound_to_it() {
    let mut environment = Environment::new();
    environment.define("x".to_string(), 1);
    assert_eq!(environment.lookup(&"x".to_string()), Some(&1));
    environment.define("x".to_string(), 2);
    assert_eq!(environment.lookup(&"x".to_string()), Some(&2));
}

#[test]
fn binding_one_name_leaves_the_others() {
    let mut environment = Environment::new();
    environment.define("x".to_string(), 1);
    environment.define("y".to_string(), 2);
    environment.define("x".to_string(), 3);
    assert_eq!(environment.lookup(&"y".to_string()), Some(&2));
    assert_eq!(environment.lookup(&"x".to_string()), Some(&3));
    assert_eq!(environment.lookup(&"z".to_string()), None);
    assert_eq!(environment.lookup(&"X".to_string()), None);
}

#[test]
fn an_unbound_variable_is_a_runtime_error() {
    let interpreter: Interpreter<f64> = Interpreter::new();
    let missing = interpreter.visit_identifier(&Identifier::new("x".to_string()));
    assert_eq!(missing.err(), Some(RuntimeError::UndefinedVariable));
}

#[test]
fn let_binds_and_rebinding_overwrites() {
    let mut interpreter: Interpreter<f64> = Interpreter::new();
    let name = Token::new(TokenType::TOKEN_IDENTIFIER, "x".to_string(), 1);
    interpreter.visit_let_statement(&name, Value::new_scalar(1.5));
    let x = Identifier::new("x".to_string());
    match &interpreter.visit_identifier(&x).unwrap().data {
        ValueType::SCALAR(s) => assert_eq!(s.data, 1.5),
        _ => panic!("not a scalar"),
    }
    interpreter.visit_let_statement(&name, Value::new_matrix(vec![1.0, 2.0], 1, 2));
    match &interpreter.visit_identifier(&x).unwrap().data {
        ValueType::MATRIX(m) => assert_eq!(m.data, vec![1.0, 2.0]),
        _ => panic!("not a matrix"),
    }
    let y = Identifier::new("y".to_string());
    assert!(interpreter.visit_identifier(&y).is_err());
}

#[test]
fn newline_prints_as_many_empty_lines_as_it_says() {
    let interpreter: Interpreter<f64> = Interpreter::new();
    assert_eq!(
        interpreter.visit_new_line_statement(&NewLineStatement::new(0)),
        ""
    );
    assert_eq!(
        interpreter.visit_new_line_statement(&NewLineStatement::new(1)),
        "\n"
    );
    assert_eq!(
        interpreter.visit_new_line_statement(&NewLineStatement::new(3)),
        "\n\n\n"
    );
}

fn printed_structure(text: &str) -> String {
    let tokens = Lexer::new(text.to_string()).scan_tokens();
    let mut parser = Parser::new(tokens);
    let statements = parser.parse().unwrap();
    let printer = ASTPrinter::new();
    match &statements[0] {
        Statement::Expression(s) => {
            assert!(printer.is_printable(&s.expression));
            printer.print(&s.expression)
        }
        _ => panic!("not an expression statement"),
    }
}

#[test]
fn the_printer_shows_the_grouping_of_operators() {
    assert_eq!(printed_structure("1 + 2 * 3;"), "(1\n + (2\n * 3\n))");
    assert_eq!(printed_structure("8 / 4 / 2;"), "(8\n / (4\n / 2\n))");
}

#[test]
fn the_printer_shows_unary_operators_before_their_operand() {
    assert_eq!(printed_structure("-1;"), "(- 1\n)");
    assert_eq!(printed_structure("[1 2]';"), "(' | 1 2 |\n)");
    assert_eq!(printed_structure("ref([1 | 2]);"), "(ref | 1 |\n| 2 |\n)");
}

#[test]
fn the_printer_shows_groups_in_parentheses_and_nothing_for_variables() {
    assert_eq!(printed_structure("(1);"), "(1\n)");
    assert_eq!(printed_structure("x;"), "");
    assert_eq!(printed_structure("x + 1;"), "( + 1\n)");
}

#[test]
fn a_literal_that_does_not_fill_its_shape_is_not_printable() {
    let short = Expression::Literal(Literal::new(Value::new_matrix(
        vec!["1".to_string(), "2".to_string(), "3".to_string()],
        2,
        2,
    )));
    assert!(!ASTPrinter::new().is_printable(&short));
}

/// Whole numbers, with the arithmetic of the machine.
struct Whole;

impl Numbers<i64> for Whole {
    fn number(&self, text: &String) -> i64 {
        text.parse::<i64>().unwrap()
    }

    fn text(&self, number: i64) -> String {
        number.to_string()
    }

    fn reading(&self, number: i64) -> Reading {
        Reading {
            zero: number == 0,
            exponent: if number < 1 {
                Exponent::BelowOne
            } else if number > u32::MAX as i64 {
                Exponent::Fractional
            } else {
                Exponent::Whole(number as u32)
            },
        }
    }

    fn zero(&self) -> i64 {
        0
    }

    fn one(&self) -> i64 {
        1
    }

    fn negate(&self, a: i64) -> i64 {
        -a
    }

    fn add(&self, a: i64, b: i64) -> i64 {
        a + b
    }

    fn subtract(&self, a: i64, b: i64) -> i64 {
        a - b
    }

    fn multiply(&self, a: i64, b: i64) -> i64 {
        a * b
    }

    fn divide(&self, a: i64, b: i64) -> i64 {
        a / b
    }

    fn power(&self, a: i64, b: i64) -> i64 {
        a.pow(b as u32)
    }

    fn multiply_add(&self, sum: i64, a: i64, b: i64) -> i64 {
        sum + a * b
    }

    fn outweighs(&self, a: i64, b: i64) -> bool {
        a.abs() > b.abs()
    }

    fn below(&self, a: i64, _parts: u32) -> bool {
        a == 0
    }

    fn above(&self, a: i64, _parts: u32) -> bool {
        a != 0
    }
}

fn number(text: &str) -> Expression {
    Expression::Literal(Literal::new(Value::new_scalar(text.to_string())))
}

fn operator(kind: TokenType, text: &str) -> Token {
    Token::new(kind, text.to_string(), 1)
}

fn scalar_of(value: Value<i64>) -> i64 {
    match value.data {
        ValueType::SCALAR(s) => s.data,
        ValueType::MATRIX(_) => panic!("not a scalar"),
    }
}

fn entries_of(value: Value<i64>) -> (Vec<i64>, usize, usize) {
    match value.data {
        ValueType::MATRIX(m) => (m.data, m.rows, m.cols),
        ValueType::SCALAR(_) => panic!("not a matrix"),
    }
}

#[test]
fn a_literal_reads_each_number_by_the_numbers_of_the_run() {
    let scalar = read_literal(&Whole, &Value::new_scalar("42".to_string())).unwrap();
    assert_eq!(scalar_of(scalar), 42);
    let texts = vec!["1".to_string(), "2".to_string(), "3".to_string(), "4".to_string()];
    let matrix = read_literal(&Whole, &Value::new_matrix(texts, 2, 2)).unwrap();
    assert_eq!(entries_of(matrix), (vec![1, 2, 3, 4], 2, 2));
}

#[test]
fn a_literal_is_well_formed_when_it_fills_its_shape() {
    let literal = |texts: &[&str], rows: usize, cols: usize| {
        Expression::Literal(Literal::new(Value::new_matrix(
            texts.iter().map(|t| t.to_string()).collect(),
            rows,
            cols,
        )))
    };
    assert!(literal(&["1", "2", "3", "4"], 2, 2).is_well_formed());
    assert!(literal(&["1", "2", "3"], 1, 3).is_well_formed());
    assert!(!literal(&["1", "2", "3"], 2, 2).is_well_formed());
    assert!(!literal(&["1", "2", "3", "4", "5", "6"], 2, 2).is_well_formed());
    assert!(!literal(&[], 1, 0).is_well_formed());
    assert!(!literal(&[], 0, 1).is_well_formed());
    assert!(number("1").is_well_formed());
    let nested = Expression::Binary(Binary::new(
        Box::new(number("1")),
        operator(TokenType::TOKEN_PLUS, "+"),
        Box::new(Expression::Unary(Unary::new(
            operator(TokenType::TOKEN_MINUS, "-"),
            Box::new(literal(&["1", "2", "3"], 2, 2)),
        ))),
    ));
    assert!(!nested.is_well_formed());
}

#[test]
fn a_literal_is_numeric_when_all_its_texts_are_numbers() {
    let literal = |texts: &[&str]| {
        Expression::Literal(Literal::new(Value::new_matrix(
            texts.iter().map(|t| t.to_string()).collect(),
            1,
            texts.len(),
        )))
    };
    assert!(number("1.5").is_numeric());
    assert!(!number("1.5.2").is_numeric());
    assert!(!number("").is_numeric());
    assert!(literal(&["1", "2.", "3.25"]).is_numeric());
    assert!(!literal(&["1", "two", "3"]).is_numeric());
    assert!(!literal(&["1", "2", "-3"]).is_numeric());
    assert!(Expression::Identifier(Identifier::new("x".to_string())).is_numeric());
    let nested = Expression::Binary(Binary::new(
        Box::new(number("1")),
        operator(TokenType::TOKEN_PLUS, "+"),
        Box::new(Expression::Unary(Unary::new(
            operator(TokenType::TOKEN_MINUS, "-"),
            Box::new(literal(&["1", "x"])),
        ))),
    ));
    assert!(!nested.is_numeric());
}

#[test]
fn show_gives_each_number_as_text() {
    assert_eq!(show(&Whole, &Value::new_scalar(-7)).print(), "-7\n");
    let matrix = Value::new_matrix(vec![1, -2, 3, 4], 2, 2);
    assert_eq!(show(&Whole, &matrix).print(), "| 1 -2 |\n| 3 4 |\n");
}

#[test]
fn unary_operations_on_whole_numbers() {
    let negated = unary(&Whole, TokenType::TOKEN_MINUS, Value::new_scalar(5)).unwrap();
    assert_eq!(scalar_of(negated), -5);
    let matrix = Value::new_matrix(vec![1, 2, 3, 4, 5, 6], 2, 3);
    let negated = unary(&Whole, TokenType::TOKEN_MINUS, matrix.clone()).unwrap();
    assert_eq!(entries_of(negated), (vec![-1, -2, -3, -4, -5, -6], 2, 3));
    let transposed = unary(&Whole, TokenType::TOKEN_TRANSPOSE, matrix).unwrap();
    assert_eq!(entries_of(transposed), (vec![1, 4, 2, 5, 3, 6], 3, 2));
    assert_eq!(
        unary(&Whole, TokenType::TOKEN_PLUS, Value::new_scalar(5)).err(),
        Some(RuntimeError::InvalidUnaryOperator)
    );
}

#[test]
fn reductions_on_whole_numbers() {
    let quarter_turn = Value::new_matrix(vec![0, 1, -1, 0], 2, 2);
    let echelon = unary(&Whole, TokenType::TOKEN_REF, quarter_turn.clone()).unwrap();
    assert_eq!(entries_of(echelon), (vec![-1, 0, 0, 1], 2, 2));
    let reduced = unary(&Whole, TokenType::TOKEN_RREF, quarter_turn.clone()).unwrap();
    assert_eq!(entries_of(reduced), (vec![1, 0, 0, 1], 2, 2));
    let inverse = unary(&Whole, TokenType::TOKEN_INVERSE, quarter_turn).unwrap();
    assert_eq!(entries_of(inverse), (vec![0, -1, 1, 0], 2, 2));
    let wide = Value::new_matrix(vec![1, 2, 3], 1, 3);
    assert_eq!(
        unary(&Whole, TokenType::TOKEN_INVERSE, wide).err(),
        Some(RuntimeError::NotInvertible)
    );
}

#[test]
fn binary_operations_on_whole_numbers() {
    let seven = binary(
        &Whole,
        TokenType::TOKEN_PLUS,
        Value::new_scalar(3),
        Value::new_scalar(4),
    );
    assert_eq!(scalar_of(seven.unwrap()), 7);
    let eight = binary(
        &Whole,
        TokenType::TOKEN_CARET,
        Value::new_scalar(2),
        Value::new_scalar(3),
    );
    assert_eq!(scalar_of(eight.unwrap()), 8);
    let left = Value::new_matrix(vec![1, 2, 3, 4], 2, 2);
    let right = Value::new_matrix(vec![5, 6, 7, 8], 2, 2);
    let product = binary(&Whole, TokenType::TOKEN_STAR, left.clone(), right.clone());
    assert_eq!(entries_of(product.unwrap()), (vec![19, 22, 43, 50], 2, 2));
    let difference = binary(&Whole, TokenType::TOKEN_MINUS, left.clone(), right);
    assert_eq!(entries_of(difference.unwrap()), (vec![-4, -4, -4, -4], 2, 2));
    let scaled = binary(&Whole, TokenType::TOKEN_STAR, Value::new_scalar(3), left.clone());
    assert_eq!(entries_of(scaled.unwrap()), (vec![3, 6, 9, 12], 2, 2));
    let halved = binary(&Whole, TokenType::TOKEN_SLASH, left.clone(), Value::new_scalar(2));
    assert_eq!(entries_of(halved.unwrap()), (vec![0, 1, 1, 2], 2, 2));
    let cubed = binary(&Whole, TokenType::TOKEN_CARET, left.clone(), Value::new_scalar(3));
    assert_eq!(entries_of(cubed.unwrap()), (vec![37, 54, 81, 118], 2, 2));
    let failed = binary(&Whole, TokenType::TOKEN_SLASH, left, Value::new_scalar(0));
    assert_eq!(failed.err(), Some(RuntimeError::DivideByZero));
}

#[test]
fn evaluate_walks_the_tree() {
    let interpreter: Interpreter<i64> = Interpreter::new();
    let sum = Expression::Binary(Binary::new(
        Box::new(number("1")),
        operator(TokenType::TOKEN_PLUS, "+"),
        Box::new(Expression::Binary(Binary::new(
            Box::new(number("2")),
            operator(TokenType::TOKEN_STAR, "*"),
            Box::new(number("3")),
        ))),
    ));
    assert_eq!(scalar_of(interpreter.evaluate(&sum, &Whole).unwrap()), 7);
}

#[test]
fn evaluate_refuses_an_operator_that_is_none() {
    let interpreter: Interpreter<i64> = Interpreter::new();
    let odd = Expression::Unary(Unary::new(
        operator(TokenType::TOKEN_STAR, "*"),
        Box::new(number("1")),
    ));
    assert_eq!(
        interpreter.evaluate(&odd, &Whole).err(),
        Some(RuntimeError::InvalidUnaryOperator)
    );
    let odder = Expression::Binary(Binary::new(
        Box::new(number("1")),
        operator(TokenType::TOKEN_SEMICOLON, ";"),
        Box::new(number("2")),
    ));
    assert_eq!(
        interpreter.evaluate(&odder, &Whole).err(),
        Some(RuntimeError::UnknownOperator)
    );
}

#[test]
fn execute_gives_the_text_of_each_statement() {
    let tokens = Lexer::new("let x = 6 * 7; print x; newline 2; x;".to_string()).scan_tokens();
    let statements = Parser::new(tokens).parse().unwrap();
    let mut interpreter: Interpreter<i64> = Interpreter::new();
    let texts: Vec<String> = statements
        .iter()
        .map(|statement| interpreter.execute(statement, &Whole).unwrap())
        .collect();
    assert_eq!(texts, vec!["", "42\n", "\n\n", ""]);
}

#[test]
fn execute_leaves_the_bindings_alone_on_an_error() {
    let tokens = Lexer::new("let x = 1; let x = 2 / 0;".to_string()).scan_tokens();
    let statements = Parser::new(tokens).parse().unwrap();
    let mut interpreter: Interpreter<i64> = Interpreter::new();
    assert_eq!(interpreter.execute(&statements[0], &Whole), Ok(String::new()));
    assert_eq!(
        interpreter.execute(&statements[1], &Whole),
        Err(RuntimeError::DivideByZero)
    );
    let x = Identifier::new("x".to_string());
    assert_eq!(scalar_of(interpreter.visit_identifier(&x).unwrap().clone()), 1);
}

#[test]
fn interpret_runs_statements_in_order_until_an_error() {
    let tokens =
        Lexer::new("print 1; let x = 2; print x * 3; print y; print 4;".to_string()).scan_tokens();
    let statements = Parser::new(tokens).parse().unwrap();
    let mut interpreter: Interpreter<i64> = Interpreter::new();
    let run = interpreter.interpret(&statements, &Whole);
    assert_eq!(run.output, "1\n6\n");
    assert_eq!(run.error, Some(RuntimeError::UndefinedVariable));
}
