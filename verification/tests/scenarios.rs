use linalg::interpreter::evaluator::Run;
use linalg::interpreter::Exponent;
use linalg::interpreter::Interpreter;
use linalg::interpreter::Reading;
use linalg::interpreter::RuntimeError;
use linalg::lexer::Lexer;
use linalg::numbers::Numbers;
use linalg::parser::Parser;

/// Double-precision arithmetic, with the tolerances of elimination.
struct Doubles;

impl Numbers<f64> for Doubles {
    fn number(&self, text: &String) -> f64 {
        text.parse::<f64>().unwrap()
    }

    fn text(&self, number: f64) -> String {
        number.to_string()
    }

    fn reading(&self, number: f64) -> Reading {
        Reading {
            zero: number == 0.0,
            exponent: if number < 1.0 {
                Exponent::BelowOne
            } else if number != (number as u32) as f64 {
                Exponent::Fractional
            } else {
                Exponent::Whole(number as u32)
            },
        }
    }

    fn zero(&self) -> f64 {
        0.0
    }

    fn one(&self) -> f64 {
        1.0
    }

    fn negate(&self, a: f64) -> f64 {
        -a
    }

    fn add(&self, a: f64, b: f64) -> f64 {
        a + b
    }

    fn subtract(&self, a: f64, b: f64) -> f64 {
        a - b
    }

    fn multiply(&self, a: f64, b: f64) -> f64 {
        a * b
    }

    fn divide(&self, a: f64, b: f64) -> f64 {
        a / b
    }

    fn power(&self, a: f64, b: f64) -> f64 {
        a.powf(b)
    }

    fn multiply_add(&self, sum: f64, a: f64, b: f64) -> f64 {
        sum + a * b
    }

    fn outweighs(&self, a: f64, b: f64) -> bool {
        a.abs() > b.abs()
    }

    fn below(&self, a: f64, parts: u32) -> bool {
        a.abs() < 1.0 / f64::from(parts)
    }

    fn above(&self, a: f64, parts: u32) -> bool {
        a.abs() > 1.0 / f64::from(parts)
    }
}

fn run_with(interpreter: &mut Interpreter<f64>, text: &str) -> (Run, usize) {
    let tokens = Lexer::new(text.to_string()).scan_tokens();
    let mut parser = Parser::new(tokens);
    let statements = parser.parse().unwrap();
    assert!(statements.iter().all(|statement| statement.is_well_formed()));
    assert!(statements.iter().all(|statement| statement.is_numeric()));
    let run = interpreter.interpret(&statements, &Doubles);
    (run, parser.diagnostics().len())
}

fn run(text: &str) -> Run {
    let (run, syntax_errors) = run_with(&mut Interpreter::new(), text);
    assert_eq!(syntax_errors, 0);
    run
}

fn output(text: &str) -> String {
    let run = run(text);
    assert_eq!(run.error, None);
    run.output
}

fn failure(text: &str) -> RuntimeError {
    run(text).error.unwrap()
}

/// The numbers that a printed matrix shows, row by row.
fn shown(text: &str) -> Vec<Vec<f64>> {
    text.lines()
        .map(|line| {
            line.trim_matches(|c| c == '|' || c == ' ')
                .split(' ')
                .map(|entry| entry.parse::<f64>().unwrap())
                .collect()
        })
        .collect()
}

fn close(left: &[Vec<f64>], right: &[Vec<f64>], tolerance: f64) -> bool {
    left.len() == right.len()
        && left.iter().zip(right.iter()).all(|(a, b)| {
            a.len() == b.len() && a.iter().zip(b.iter()).all(|(x, y)| (x - y).abs() <= tolerance)
        })
}

#[test]
fn a_sum_with_a_product_prints_seven() {
    assert_eq!(output("print 1 + 2 * 3;"), "7\n");
}

#[test]
fn a_bound_matrix_prints_transposed() {
    assert_eq!(
        output("let x = [1 2 | 3 4]; print x';"),
        "| 1 3 |\n| 2 4 |\n"
    );
}

#[test]
fn the_identity_of_size_three_prints() {
    assert_eq!(
        output("print identity(3);"),
        "| 1 0 0 |\n| 0 1 0 |\n| 0 0 1 |\n"
    );
}

#[test]
fn the_square_of_a_singular_matrix_prints() {
    assert_eq!(output("print [1 2 | 2 4]^2;"), "| 5 10 |\n| 10 20 |\n");
    assert_eq!(
        output("print [1 2 | 2 4]^2;"),
        output("print [1 2 | 2 4] * [1 2 | 2 4];")
    );
}

#[test]
fn division_by_zero_ends_the_run() {
    assert_eq!(failure("print 5 / 0;"), RuntimeError::DivideByZero);
    let run = run("print 1; print 5 / 0; print 2;");
    assert_eq!(run.error, Some(RuntimeError::DivideByZero));
    assert_eq!(run.output, "1\n");
}

#[test]
fn a_matrix_divided_by_zero_ends_the_run() {
    assert_eq!(failure("print [1 2 | 3 4] / 0;"), RuntimeError::DivideByZero);
    assert_eq!(failure("print [1 2 | 3 4] / 0.0;"), RuntimeError::DivideByZero);
    assert_eq!(failure("print 1 / (1 - 1);"), RuntimeError::DivideByZero);
    assert_eq!(failure("print 1 / -0;"), RuntimeError::DivideByZero);
}

#[test]
fn an_error_keeps_later_statements_from_binding() {
    let mut interpreter = Interpreter::new();
    let (first, _) = run_with(&mut interpreter, "let x = 1; let y = 1 / 0; let x = 2;");
    assert_eq!(first.error, Some(RuntimeError::DivideByZero));
    let (second, _) = run_with(&mut interpreter, "print x; print y;");
    assert_eq!(second.output, "1\n");
    assert_eq!(second.error, Some(RuntimeError::UndefinedVariable));
}

#[test]
fn bindings_live_from_one_run_to_the_next() {
    let mut interpreter = Interpreter::new();
    let (first, _) = run_with(&mut interpreter, "let x = [1 2 | 3 4];");
    assert_eq!(first.output, "");
    let (second, _) = run_with(&mut interpreter, "print x * 2;");
    assert_eq!(second.output, "| 2 4 |\n| 6 8 |\n");
}

#[test]
fn scalar_arithmetic_is_floating_point_arithmetic() {
    assert_eq!(output("print 8 / 4 / 2;"), "4\n");
    assert_eq!(output("print 1 - 2 - 3;"), "-4\n");
    assert_eq!(output("print 2 ^ 3 ^ 2;"), "64\n");
    assert_eq!(output("print 2 * 3 ^ 2;"), "18\n");
    assert_eq!(output("print 0.1 + 0.2;"), "0.30000000000000004\n");
    assert_eq!(output("print 1 / 3;"), format!("{}\n", 1.0_f64 / 3.0));
    assert_eq!(output("print (1 + 2) * 3;"), "9\n");
    assert_eq!(output("print -2 ^ 2;"), "4\n");
    assert_eq!(output("print 2 ^ 0.5;"), format!("{}\n", 2.0_f64.powf(0.5)));
    assert_eq!(output("print 1.50;"), "1.5\n");
    assert_eq!(output("print 7 - 2 * 3;"), "1\n");
    assert_eq!(output("print 2 * 3 / 4;"), "1.5\n");
}

#[test]
fn matrices_add_subtract_and_scale() {
    assert_eq!(
        output("print [1 2 | 3 4] + [10 20 | 30 40];"),
        "| 11 22 |\n| 33 44 |\n"
    );
    assert_eq!(
        output("print [1 2 | 3 4] - [10 20 | 30 40];"),
        "| -9 -18 |\n| -27 -36 |\n"
    );
    assert_eq!(output("print 2 * [1 2 | 3 4];"), "| 2 4 |\n| 6 8 |\n");
    assert_eq!(output("print [1 2 | 3 4] * 2;"), "| 2 4 |\n| 6 8 |\n");
    assert_eq!(output("print [1 2 | 3 4] / 2;"), "| 0.5 1 |\n| 1.5 2 |\n");
    assert_eq!(output("print -[1 2 | 3 4];"), "| -1 -2 |\n| -3 -4 |\n");
}

#[test]
fn matrices_multiply() {
    assert_eq!(
        output("print [1 2 3 | 4 5 6] * [1 0 | 0 1 | 1 1];"),
        "| 4 5 |\n| 10 11 |\n"
    );
    assert_eq!(
        output("print [1 0 | 0 1 | 1 1] * [1 2 3 | 4 5 6];"),
        "| 1 2 3 |\n| 4 5 6 |\n| 5 7 9 |\n"
    );
}

#[test]
fn the_identity_times_a_matrix_is_the_matrix() {
    let matrix = "| 0.1 -2.5 30000000000 |\n| 4 5.5 -6.25 |\n| 0.0000000007 8 9 |\n";
    assert_eq!(
        output(
            "let m = [0.1 2.5 30000000000 | 4 5.5 6.25 | 0.0000000007 8 9];\
             let m = m - [0 5 0 | 0 0 12.5 | 0 0 0];\
             print identity(3) * m;"
        ),
        matrix
    );
    assert_eq!(
        output("let m = [1 2 | 3 4]; print identity(2) * m; print m * identity(2);"),
        "| 1 2 |\n| 3 4 |\n| 1 2 |\n| 3 4 |\n"
    );
}

#[test]
fn transposing_twice_prints_the_matrix() {
    assert_eq!(
        output("let m = [1 2 3 | 4 5 6]; print m''; print m;"),
        "| 1 2 3 |\n| 4 5 6 |\n| 1 2 3 |\n| 4 5 6 |\n"
    );
    assert_eq!(
        output("print [1 2 3 | 4 5 6]';"),
        "| 1 4 |\n| 2 5 |\n| 3 6 |\n"
    );
}

#[test]
fn row_echelon_form_keeps_its_pivots() {
    let reduced = shown(&output("print ref([2 4 | 1 3]);"));
    assert!(close(&reduced, &[vec![2.0, 0.0], vec![0.0, 1.0]], 1e-12));
}

#[test]
fn reduced_row_echelon_form_scales_pivots_to_one() {
    let reduced = shown(&output(
        "print rref([2 4 0 2 | 4 9 0 8 | 0 0 7 10] - [0 0 2 0 | 0 0 3 0 | 2 3 0 0]);",
    ));
    assert!(close(
        &reduced,
        &[
            vec![1.0, 0.0, 0.0, -1.0],
            vec![0.0, 1.0, 0.0, 2.0],
            vec![0.0, 0.0, 1.0, 2.0],
        ],
        1e-9
    ));
}

#[test]
fn the_reduced_form_of_a_reduced_form_prints_the_same() {
    let text = "let m = [2 4 0 2 | 4 9 0 8 | 0 0 7 10] - [0 0 2 0 | 0 0 3 0 | 2 3 0 0];";
    assert_eq!(
        output(&format!("{} print rref(rref(m));", text)),
        output(&format!("{} print rref(m);", text))
    );
    assert_eq!(
        output("print rref(rref([1 2 | 2 4]));"),
        output("print rref([1 2 | 2 4]);")
    );
}

#[test]
fn the_inverse_of_a_matrix() {
    let inverse = shown(&output("print inverse([4 7 | 2 6]);"));
    assert!(close(&inverse, &[vec![0.6, -0.7], vec![-0.2, 0.4]], 1e-9));
    assert_eq!(output("print inverse([2 0 | 0 4]);"), "| 0.5 0 |\n| 0 0.25 |\n");
}

#[test]
fn the_inverse_of_the_inverse_prints_nearly_the_matrix() {
    let twice = shown(&output("print inverse(inverse([4 7 2 | 6 1 3 | 5 9 8]));"));
    assert!(close(
        &twice,
        &[
            vec![4.0, 7.0, 2.0],
            vec![6.0, 1.0, 3.0],
            vec![5.0, 9.0, 8.0],
        ],
        0.05
    ));
}

#[test]
fn matrices_of_different_shapes_do_not_add() {
    assert_eq!(failure("print [1 2 | 3 4] + [1 2 3];"), RuntimeError::AddShapes);
    assert_eq!(
        failure("print [1 2 | 3 4] - [1 2 3];"),
        RuntimeError::SubtractShapes
    );
    assert_eq!(
        failure("print [1 2 | 3 4] * [1 2 3];"),
        RuntimeError::MultiplyShapes
    );
}

#[test]
fn matrix_powers_need_whole_exponents() {
    assert_eq!(failure("print [1 2 | 3 4] ^ 0;"), RuntimeError::PowerBelowOne);
    assert_eq!(failure("print [1 2 | 3 4] ^ 0.5;"), RuntimeError::PowerBelowOne);
    assert_eq!(failure("print [1 2 | 3 4] ^ -1;"), RuntimeError::PowerBelowOne);
    assert_eq!(
        failure("print [1 2 | 3 4] ^ 1.5;"),
        RuntimeError::PowerFractional
    );
    assert_eq!(
        failure("print [1 2 | 3 4] ^ 5000000000;"),
        RuntimeError::PowerFractional
    );
    assert_eq!(failure("print [1 2 3] ^ 2;"), RuntimeError::PowerNotSquare);
    assert_eq!(output("print [1 1 | 0 1] ^ 3;"), "| 1 3 |\n| 0 1 |\n");
    assert_eq!(output("print [1 2 | 3 4] ^ 1;"), "| 1 2 |\n| 3 4 |\n");
}

#[test]
fn kinds_that_do_not_go_together_end_the_run() {
    assert_eq!(failure("print 1 + [1 2];"), RuntimeError::AddScalarMatrix);
    assert_eq!(failure("print [1 2] + 1;"), RuntimeError::AddScalarMatrix);
    assert_eq!(
        failure("print 1 - [1 2];"),
        RuntimeError::SubtractMatrixFromScalar
    );
    assert_eq!(
        failure("print [1 2] - 1;"),
        RuntimeError::SubtractScalarFromMatrix
    );
    assert_eq!(failure("print 1 / [1 2];"), RuntimeError::DivideScalarByMatrix);
    assert_eq!(
        failure("print [1 2] / [1 2];"),
        RuntimeError::DivideMatrixByMatrix
    );
    assert_eq!(failure("print 2 ^ [1 2];"), RuntimeError::PowerScalarToMatrix);
    assert_eq!(
        failure("print [1 2 | 3 4] ^ [1 2 | 3 4];"),
        RuntimeError::PowerMatrixToMatrix
    );
    assert_eq!(failure("print 1';"), RuntimeError::TransposeScalar);
    assert_eq!(failure("print ref(1);"), RuntimeError::RowEchelonScalar);
    assert_eq!(failure("print rref(1);"), RuntimeError::ReducedRowEchelonScalar);
    assert_eq!(failure("print inverse(1);"), RuntimeError::InverseScalar);
    assert_eq!(failure("print inverse([1 2 3]);"), RuntimeError::NotInvertible);
}

#[test]
fn comparisons_parse_and_fail_at_evaluation() {
    assert_eq!(failure("print 1 < 2;"), RuntimeError::UnknownOperator);
    assert_eq!(failure("print 1 == 1;"), RuntimeError::UnknownOperator);
}

#[test]
fn an_unbound_name_ends_the_run() {
    assert_eq!(failure("print x;"), RuntimeError::UndefinedVariable);
    let run = run("let x = 1; print x; print y; print x;");
    assert_eq!(run.output, "1\n");
    assert_eq!(run.error, Some(RuntimeError::UndefinedVariable));
}

#[test]
fn the_left_operand_fails_first() {
    assert_eq!(failure("print (1 / 0) + y;"), RuntimeError::DivideByZero);
    assert_eq!(failure("print y + (1 / 0);"), RuntimeError::UndefinedVariable);
}

#[test]
fn operand_errors_come_before_operator_errors() {
    assert_eq!(failure("print (1 / 0) < 2;"), RuntimeError::DivideByZero);
    assert_eq!(failure("print 1 < y;"), RuntimeError::UndefinedVariable);
    assert_eq!(failure("print (1 + [1 2])';"), RuntimeError::AddScalarMatrix);
}

#[test]
fn a_matrix_literal_takes_no_signs() {
    let (_, syntax_errors) = run_with(&mut Interpreter::new(), "print [1 -2];");
    assert_eq!(syntax_errors, 2);
    assert_eq!(output("print -[1 2];"), "| -1 -2 |\n");
}

#[test]
fn a_matrix_literal_of_unequal_rows_is_a_syntax_error_and_runs_as_zero() {
    for text in ["print [1 2 | 3 4 5 6];", "print [];", "print [1 2 | ];", "print [1 2 | 3];"] {
        let (run, syntax_errors) = run_with(&mut Interpreter::new(), text);
        assert_eq!(syntax_errors, 1);
        assert_eq!(run.error, None);
        assert_eq!(run.output, "0\n");
    }
}

#[test]
fn rebinding_overwrites() {
    assert_eq!(
        output("let x = 1; let x = x + 1; let y = x * 10; print x; print y;"),
        "2\n20\n"
    );
}

#[test]
fn newline_prints_empty_lines() {
    assert_eq!(
        output("print 1; newline; print 2; newline 2; print 3;"),
        "1\n\n2\n\n\n3\n"
    );
}

#[test]
fn an_expression_statement_prints_nothing() {
    assert_eq!(output("1 + 2; let x = 3; x;"), "");
}

#[test]
fn a_statement_that_did_not_parse_runs_as_zero() {
    let (run, syntax_errors) = run_with(&mut Interpreter::new(), "print (1; print 2; print 3;");
    assert_eq!(syntax_errors, 1);
    assert_eq!(run.error, None);
    assert_eq!(run.output, "0\n2\n3\n");
}
