use linalg::interpreter::Shape;
use linalg::value::Matrix;
use linalg::value::Value;
use linalg::value::ValueType;

fn matrix(data: Vec<i64>, rows: usize, cols: usize) -> Matrix<i64> {
    Matrix { data, rows, cols }
}

fn texts(data: &[&str], rows: usize, cols: usize) -> Value<String> {
    Value::new_matrix(data.iter().map(|s| s.to_string()).collect(), rows, cols)
}

#[test]
fn identity_has_ones_on_the_diagonal() {
    let m = Matrix::new_identity(3, 0.0, 1.0);
    assert_eq!(m.rows, 3);
    assert_eq!(m.cols, 3);
    assert_eq!(m.data, vec![1.0, 0.0, 0.0, 0.0, 1.0, 0.0, 0.0, 0.0, 1.0]);
}

#[test]
fn identity_of_size_one_and_zero() {
    let one = Matrix::new_identity(1, 0, 1);
    assert_eq!(one.data, vec![1]);
    let none = Matrix::new_identity(0, 0, 1);
    assert_eq!(none.rows, 0);
    assert_eq!(none.cols, 0);
    assert!(none.data.is_empty());
    assert!(!none.is_well_formed());
}

#[test]
fn identity_is_built_from_the_given_constants() {
    let m = Matrix::new_identity(2, 'o', 'I');
    assert_eq!(m.data, vec!['I', 'o', 'o', 'I']);
}

#[test]
fn transpose_swaps_rows_and_columns() {
    let mut m = matrix(vec![1, 2, 3, 4], 2, 2);
    m.transpose();
    assert_eq!(m.rows, 2);
    assert_eq!(m.cols, 2);
    assert_eq!(m.data, vec![1, 3, 2, 4]);
}

#[test]
fn transpose_of_a_wide_matrix_is_tall() {
    let mut m = matrix(vec![1, 2, 3, 4, 5, 6], 2, 3);
    m.transpose();
    assert_eq!(m.rows, 3);
    assert_eq!(m.cols, 2);
    assert_eq!(m.data, vec![1, 4, 2, 5, 3, 6]);
}

#[test]
fn transpose_of_a_row_is_a_column() {
    let mut m = matrix(vec![7, 8, 9], 1, 3);
    m.transpose();
    assert_eq!((m.rows, m.cols), (3, 1));
    assert_eq!(m.data, vec![7, 8, 9]);
}

#[test]
fn transposing_twice_gives_the_matrix_back() {
    for (rows, cols) in [(1, 1), (1, 4), (4, 1), (2, 3), (3, 2), (3, 3), (5, 7)] {
        let data: Vec<i64> = (0..(rows * cols) as i64).collect();
        let mut m = matrix(data.clone(), rows, cols);
        m.transpose();
        m.transpose();
        assert_eq!(m.rows, rows);
        assert_eq!(m.cols, cols);
        assert_eq!(m.data, data);
    }
}

#[test]
fn joined_puts_rows_side_by_side() {
    let left = matrix(vec![1, 2, 3, 4], 2, 2);
    let right = matrix(vec![5, 6, 7, 8, 9, 10], 2, 3);
    let both = left.joined(&right);
    assert_eq!((both.rows, both.cols), (2, 5));
    assert_eq!(both.data, vec![1, 2, 5, 6, 7, 3, 4, 8, 9, 10]);
}

#[test]
fn joined_with_the_identity() {
    let left = matrix(vec![2, 3, 4, 5], 2, 2);
    let both = left.joined(&Matrix::new_identity(2, 0, 1));
    assert_eq!((both.rows, both.cols), (2, 4));
    assert_eq!(both.data, vec![2, 3, 1, 0, 4, 5, 0, 1]);
}

#[test]
fn trailing_columns_keeps_the_right_part() {
    let m = matrix(vec![1, 2, 3, 4, 5, 6, 7, 8], 2, 4);
    let half = m.trailing_columns(2);
    assert_eq!((half.rows, half.cols), (2, 2));
    assert_eq!(half.data, vec![3, 4, 7, 8]);
    let all = m.trailing_columns(0);
    assert_eq!(all.data, m.data);
    let last = m.trailing_columns(3);
    assert_eq!((last.rows, last.cols), (2, 1));
    assert_eq!(last.data, vec![4, 8]);
}

#[test]
fn joining_and_splitting_gives_the_right_part_back() {
    let left = matrix(vec![1, 2, 3, 4, 5, 6], 3, 2);
    let right = matrix(vec![7, 8, 9], 3, 1);
    let back = left.joined(&right).trailing_columns(2);
    assert_eq!((back.rows, back.cols), (3, 1));
    assert_eq!(back.data, right.data);
}

#[test]
fn well_formed_matrices_fill_their_shape() {
    assert!(matrix(vec![1, 2, 3, 4], 2, 2).is_well_formed());
    assert!(matrix(vec![1], 1, 1).is_well_formed());
    assert!(!matrix(vec![1, 2, 3], 2, 2).is_well_formed());
    assert!(!matrix(vec![1, 2, 3, 4, 5], 2, 2).is_well_formed());
    assert!(!matrix(vec![], 1, 0).is_well_formed());
    assert!(!matrix(vec![], 0, 1).is_well_formed());
    assert!(!matrix(vec![1], usize::MAX, usize::MAX).is_well_formed());
}

#[test]
fn filled_values_have_an_entry_for_every_place() {
    assert!(Value::new_scalar(1).is_filled());
    assert!(Value::new_matrix(vec![1, 2, 3, 4], 2, 2).is_filled());
    assert!(Value::new_matrix(vec![1, 2, 3, 4, 5], 2, 2).is_filled());
    assert!(Value::new_matrix(Vec::<i64>::new(), 1, 0).is_filled());
    assert!(!Value::new_matrix(vec![1, 2, 3], 2, 2).is_filled());
    assert!(!Value::new_matrix(vec![1], usize::MAX, 2).is_filled());
}

#[test]
fn value_constructors() {
    match Value::new_scalar(2.5).data {
        ValueType::SCALAR(s) => assert_eq!(s.data, 2.5),
        _ => panic!("not a scalar"),
    }
    match Value::new_matrix(vec![1, 2], 1, 2).data {
        ValueType::MATRIX(m) => {
            assert_eq!(m.data, vec![1, 2]);
            assert_eq!((m.rows, m.cols), (1, 2));
        }
        _ => panic!("not a matrix"),
    }
    match Value::wrap_matrix(matrix(vec![3], 1, 1)).data {
        ValueType::MATRIX(m) => assert_eq!(m.data, vec![3]),
        _ => panic!("not a matrix"),
    }
}

#[test]
fn a_scalar_prints_on_a_line_of_its_own() {
    assert_eq!(Value::new_scalar("7".to_string()).print(), "7\n");
    assert_eq!(Value::new_scalar("-2.5".to_string()).print(), "-2.5\n");
}

#[test]
fn a_matrix_prints_one_line_for_each_row() {
    assert_eq!(
        texts(&["1", "3", "2", "4"], 2, 2).print(),
        "| 1 3 |\n| 2 4 |\n"
    );
    assert_eq!(texts(&["1", "2", "3"], 1, 3).print(), "| 1 2 3 |\n");
    assert_eq!(texts(&["1", "2", "3"], 3, 1).print(), "| 1 |\n| 2 |\n| 3 |\n");
}

#[test]
fn the_identity_of_size_three_prints_with_ones_on_the_diagonal() {
    let m = Matrix::new_identity(3, 0.0, 1.0);
    let shown = Value::new_matrix(m.data.iter().map(|e: &f64| e.to_string()).collect(), 3, 3);
    assert_eq!(shown.print(), "| 1 0 0 |\n| 0 1 0 |\n| 0 0 1 |\n");
}

#[test]
fn a_matrix_without_columns_prints_empty_lines() {
    assert_eq!(texts(&[], 2, 0).print(), "\n\n");
    assert_eq!(texts(&[], 0, 3).print(), "");
}

#[test]
fn printing_reads_only_the_entries_of_the_shape() {
    assert_eq!(
        texts(&["1", "2", "3", "4", "5", "6"], 2, 2).print(),
        "| 1 2 |\n| 3 4 |\n"
    );
}

#[test]
fn the_shape_of_a_value() {
    assert_eq!(Value::new_scalar(1.0).shape(), Shape::Scalar);
    assert_eq!(
        Value::new_matrix(vec![1, 2, 3, 4, 5, 6], 2, 3).shape(),
        Shape::Matrix { rows: 2, cols: 3 }
    );
}
