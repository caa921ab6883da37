use linalg::value::Matrix;

fn matrix(data: Vec<f64>, rows: usize, cols: usize) -> Matrix<f64> {
    Matrix { data, rows, cols }
}

fn multiply_add(sum: f64, a: f64, b: f64) -> f64 {
    sum + a * b
}

#[test]
fn scale_applies_the_operation_to_every_entry() {
    let mut m = matrix(vec![1.0, 2.0, 3.0, 4.0], 2, 2);
    m.scale(2.5, &|e: f64, s: f64| e * s);
    assert_eq!(m.data, vec![2.5, 5.0, 7.5, 10.0]);
    assert_eq!((m.rows, m.cols), (2, 2));
}

#[test]
fn scale_by_minus_one_negates() {
    let mut m = matrix(vec![1.0, -2.0, 0.0], 1, 3);
    m.scale(-1.0, &|e: f64, s: f64| e * s);
    assert_eq!(m.data, vec![-1.0, 2.0, -0.0]);
}

#[test]
fn scale_with_division_divides_every_entry() {
    let mut m = matrix(vec![1.0, 2.0, 3.0, 4.0], 2, 2);
    m.scale(4.0, &|e: f64, s: f64| e / s);
    assert_eq!(m.data, vec![0.25, 0.5, 0.75, 1.0]);
}

#[test]
fn scale_gives_the_entry_first_and_the_scalar_second() {
    let mut m = Matrix { data: vec![10, 20], rows: 1, cols: 2 };
    m.scale(3, &|e: i64, s: i64| e - s);
    assert_eq!(m.data, vec![7, 17]);
}

#[test]
fn combined_adds_entry_by_entry() {
    let a = matrix(vec![1.0, 2.0, 3.0, 4.0], 2, 2);
    let b = matrix(vec![10.0, 20.0, 30.0, 40.0], 2, 2);
    let sum = a.combined(&b, &|x: f64, y: f64| x + y);
    assert_eq!(sum.data, vec![11.0, 22.0, 33.0, 44.0]);
    assert_eq!((sum.rows, sum.cols), (2, 2));
}

#[test]
fn combined_subtracts_the_right_from_the_left() {
    let a = matrix(vec![1.0, 2.0, 3.0], 1, 3);
    let b = matrix(vec![10.0, 20.0, 30.0], 1, 3);
    let difference = a.combined(&b, &|x: f64, y: f64| x - y);
    assert_eq!(difference.data, vec![-9.0, -18.0, -27.0]);
}

#[test]
fn product_of_two_square_matrices() {
    let a = matrix(vec![1.0, 2.0, 3.0, 4.0], 2, 2);
    let b = matrix(vec![5.0, 6.0, 7.0, 8.0], 2, 2);
    let p = a.product(&b, 0.0, &multiply_add);
    assert_eq!(p.data, vec![19.0, 22.0, 43.0, 50.0]);
    let q = b.product(&a, 0.0, &multiply_add);
    assert_eq!(q.data, vec![23.0, 34.0, 31.0, 46.0]);
}

#[test]
fn product_has_the_rows_of_the_left_and_the_columns_of_the_right() {
    let a = matrix(vec![1.0, 2.0, 3.0, 4.0, 5.0, 6.0], 2, 3);
    let b = matrix(vec![1.0, 0.0, 0.0, 1.0, 1.0, 1.0], 3, 2);
    let p = a.product(&b, 0.0, &multiply_add);
    assert_eq!((p.rows, p.cols), (2, 2));
    assert_eq!(p.data, vec![4.0, 5.0, 10.0, 11.0]);
    let q = b.product(&a, 0.0, &multiply_add);
    assert_eq!((q.rows, q.cols), (3, 3));
    assert_eq!(q.data, vec![1.0, 2.0, 3.0, 4.0, 5.0, 6.0, 5.0, 7.0, 9.0]);
}

#[test]
fn product_of_a_row_and_a_column() {
    let row = matrix(vec![1.0, 2.0, 3.0], 1, 3);
    let column = matrix(vec![4.0, 5.0, 6.0], 3, 1);
    let dot = row.product(&column, 0.0, &multiply_add);
    assert_eq!((dot.rows, dot.cols), (1, 1));
    assert_eq!(dot.data, vec![32.0]);
    let outer = column.product(&row, 0.0, &multiply_add);
    assert_eq!((outer.rows, outer.cols), (3, 3));
    assert_eq!(
        outer.data,
        vec![4.0, 8.0, 12.0, 5.0, 10.0, 15.0, 6.0, 12.0, 18.0]
    );
}

#[test]
fn product_takes_in_the_entries_in_order() {
    let a = Matrix { data: vec!["a", "b"], rows: 1, cols: 2 };
    let order = std::cell::RefCell::new(Vec::new());
    let p = a.product(
        &Matrix { data: vec!["x", "y"], rows: 2, cols: 1 },
        "0",
        &|sum: &'static str, left: &'static str, right: &'static str| {
            order.borrow_mut().push(format!("{}+{}{}", sum, left, right));
            "s"
        },
    );
    assert_eq!(p.data, vec!["s"]);
    assert_eq!(*order.borrow(), vec!["0+ax", "s+by"]);
}

#[test]
fn identity_times_a_matrix_is_the_matrix_exactly() {
    let m = matrix(
        vec![0.1, -2.5, 3.0e10, 4.0, 5.5, -6.25, 7.0e-10, 8.0, 9.0],
        3,
        3,
    );
    let identity = Matrix::new_identity(3, 0.0, 1.0);
    let left = identity.product(&m, 0.0, &multiply_add);
    assert_eq!((left.rows, left.cols), (3, 3));
    assert_eq!(left.data, m.data);
    let right = m.product(&identity, 0.0, &multiply_add);
    assert_eq!(right.data, m.data);
}

#[test]
fn the_square_of_a_singular_matrix() {
    let m = matrix(vec![1.0, 2.0, 2.0, 4.0], 2, 2);
    let square = m.power(2, 0.0, &multiply_add);
    assert_eq!((square.rows, square.cols), (2, 2));
    assert_eq!(square.data, vec![5.0, 10.0, 10.0, 20.0]);
    assert_eq!(square.data, m.product(&m, 0.0, &multiply_add).data);
}

#[test]
fn the_first_power_is_the_matrix() {
    let m = matrix(vec![1.0, 2.0, 3.0, 4.0], 2, 2);
    assert_eq!(m.power(1, 0.0, &multiply_add).data, m.data);
}

#[test]
fn higher_powers_multiply_one_time_less_than_the_power() {
    let m = matrix(vec![1.0, 1.0, 0.0, 1.0], 2, 2);
    assert_eq!(m.power(5, 0.0, &multiply_add).data, vec![1.0, 5.0, 0.0, 1.0]);
    let calls = std::cell::Cell::new(0);
    let one = matrix(vec![2.0], 1, 1);
    let sixteen = one.power(4, 0.0, &|sum: f64, a: f64, b: f64| {
        calls.set(calls.get() + 1);
        sum + a * b
    });
    assert_eq!(sixteen.data, vec![16.0]);
    assert_eq!(calls.get(), 3);
}

#[test]
fn duplicate_copies_the_matrix() {
    let m = matrix(vec![1.0, 2.0, 3.0, 4.0, 5.0, 6.0], 3, 2);
    let copy = m.duplicate();
    assert_eq!(copy.data, m.data);
    assert_eq!((copy.rows, copy.cols), (3, 2));
}

#[test]
fn swap_rows_makes_two_rows_change_places() {
    let mut m = matrix(vec![1.0, 2.0, 3.0, 4.0, 5.0, 6.0], 3, 2);
    m.swap_rows(0, 2);
    assert_eq!(m.data, vec![5.0, 6.0, 3.0, 4.0, 1.0, 2.0]);
    m.swap_rows(1, 1);
    assert_eq!(m.data, vec![5.0, 6.0, 3.0, 4.0, 1.0, 2.0]);
    m.swap_rows(2, 1);
    assert_eq!(m.data, vec![5.0, 6.0, 1.0, 2.0, 3.0, 4.0]);
}
