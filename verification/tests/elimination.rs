use linalg::elimination::PIVOT_TOLERANCE;
use linalg::elimination::RESIDUE_TOLERANCE;
use linalg::interpreter::Exponent;
use linalg::interpreter::Reading;
use linalg::numbers::Numbers;
use linalg::value::Matrix;

/// Double-precision arithmetic, with the tolerances of elimination.
struct Doubles;

impl Numbers<f64> for Doubles {
    fn number(&self, text: &String) -> f64 {
        text.parse::<f64>().unwrap()
    }

    fn text(&self, number: f64) -> String {
        number.to_string()
    }

    fn reading(&self, number: f64) -> Reading {
        Reading {
            zero: number == 0.0,
            exponent: if number < 1.0 {
                Exponent::BelowOne
            } else if number != (number as u32) as f64 {
                Exponent::Fractional
            } else {
                Exponent::Whole(number as u32)
            },
        }
    }

    fn zero(&self) -> f64 {
        0.0
    }

    fn one(&self) -> f64 {
        1.0
    }

    fn negate(&self, a: f64) -> f64 {
        -a
    }

    fn add(&self, a: f64, b: f64) -> f64 {
        a + b
    }

    fn subtract(&self, a: f64, b: f64) -> f64 {
        a - b
    }

    fn multiply(&self, a: f64, b: f64) -> f64 {
        a * b
    }

    fn divide(&self, a: f64, b: f64) -> f64 {
        a / b
    }

    fn power(&self, a: f64, b: f64) -> f64 {
        a.powf(b)
    }

    fn multiply_add(&self, sum: f64, a: f64, b: f64) -> f64 {
        sum + a * b
    }

    fn outweighs(&self, a: f64, b: f64) -> bool {
        a.abs() > b.abs()
    }

    fn below(&self, a: f64, parts: u32) -> bool {
        a.abs() < 1.0 / f64::from(parts)
    }

    fn above(&self, a: f64, parts: u32) -> bool {
        a.abs() > 1.0 / f64::from(parts)
    }
}

fn matrix(data: Vec<f64>, rows: usize, cols: usize) -> Matrix<f64> {
    Matrix { data, rows, cols }
}

fn close(left: &[f64], right: &[f64], tolerance: f64) -> bool {
    left.len() == right.len()
        && left.iter().zip(right.iter()).all(|(a, b)| (a - b).abs() <= tolerance)
}

#[test]
fn the_pivot_row_has_the_entry_of_greatest_magnitude() {
    let m = matrix(vec![1.0, 0.0, -5.0, 0.0, 3.0, 0.0], 3, 2);
    assert_eq!(m.pivot_row(&Doubles, 0, 0), 1);
    assert_eq!(m.pivot_row(&Doubles, 1, 0), 1);
    assert_eq!(m.pivot_row(&Doubles, 2, 0), 2);
    assert_eq!(m.pivot_row(&Doubles, 0, 1), 0);
}

#[test]
fn the_first_of_equal_pivots_is_taken() {
    let m = matrix(vec![2.0, -2.0, 2.0], 3, 1);
    assert_eq!(m.pivot_row(&Doubles, 0, 0), 0);
    assert_eq!(m.pivot_row(&Doubles, 1, 0), 1);
}

#[test]
fn eliminate_clears_a_column_in_all_rows_but_one() {
    let mut m = matrix(vec![2.0, 4.0, 6.0, 1.0, 3.0, 5.0, 4.0, 0.0, 2.0], 3, 3);
    m.eliminate(&Doubles, 0.0, 0, 0);
    assert_eq!(
        m.data,
        vec![2.0, 4.0, 6.0, 0.0, 1.0, 2.0, 0.0, -8.0, -10.0]
    );
    m.eliminate(&Doubles, 0.0, 1, 1);
    assert_eq!(
        m.data,
        vec![2.0, 0.0, -2.0, 0.0, 1.0, 2.0, 0.0, 0.0, 6.0]
    );
}

#[test]
fn eliminate_puts_the_given_zero_into_the_column() {
    let mut m = matrix(vec![1.0, 1.0, 3.0, 1.0], 2, 2);
    m.eliminate(&Doubles, 7.0, 0, 0);
    assert_eq!(m.data, vec![1.0, 1.0, 7.0, -2.0]);
}

#[test]
fn row_echelon_form_of_a_square_matrix() {
    let mut m = matrix(vec![2.0, 4.0, 1.0, 3.0], 2, 2);
    m.ref_matrix(&Doubles);
    assert_eq!(m.data, vec![2.0, 0.0, 0.0, 1.0]);
    assert_eq!((m.rows, m.cols), (2, 2));
}

#[test]
fn row_echelon_form_takes_the_greatest_pivot() {
    let mut m = matrix(vec![1.0, 2.0, 4.0, 4.0], 2, 2);
    m.ref_matrix(&Doubles);
    assert_eq!(m.data, vec![4.0, 0.0, 0.0, 1.0]);
}

#[test]
fn row_echelon_form_skips_columns_without_a_pivot() {
    let mut m = matrix(vec![0.0, 2.0, 4.0, 0.0, 1.0, 5.0], 2, 3);
    m.ref_matrix(&Doubles);
    assert_eq!(m.data, vec![0.0, 2.0, 0.0, 0.0, 0.0, 3.0]);
}

#[test]
fn row_echelon_form_treats_tiny_entries_as_no_pivot() {
    let mut m = matrix(vec![0.00000001, 1.0, 0.00000002, 3.0], 2, 2);
    m.ref_matrix(&Doubles);
    let factor = -1.0 / 3.0;
    assert_eq!(
        m.data,
        vec![0.00000002, 3.0, 0.00000001 + factor * 0.00000002, 0.0]
    );
}

#[test]
fn row_echelon_form_of_the_zero_matrix_is_the_zero_matrix() {
    let mut m = matrix(vec![0.0; 6], 2, 3);
    m.ref_matrix(&Doubles);
    assert_eq!(m.data, vec![0.0; 6]);
}

#[test]
fn the_leading_entry_is_the_first_significant_one() {
    let m = matrix(vec![0.0, 0.00000001, 3.0, 4.0, 0.0, 0.0, 0.0, 0.0], 2, 4);
    assert_eq!(m.leading(&Doubles, 0), Some(2));
    assert_eq!(m.leading(&Doubles, 1), None);
}

#[test]
fn normalize_scales_leading_entries_to_one() {
    let mut m = matrix(vec![2.0, 4.0, 0.0, 0.0, 0.0, -4.0], 3, 2);
    m.normalize(&Doubles, 1.0);
    assert_eq!(m.data, vec![1.0, 2.0, 0.0, 0.0, -0.0, 1.0]);
}

#[test]
fn normalize_stores_one_where_the_product_would_miss_it() {
    let scale = 1.0 / 49.0;
    assert_ne!(49.0 * scale, 1.0);
    let mut m = matrix(vec![49.0, 7.0], 1, 2);
    m.normalize(&Doubles, 1.0);
    assert_eq!(m.data, vec![1.0, 7.0 * scale]);
}

#[test]
fn the_tolerances_are_one_in_ten_million_and_one_in_a_thousand() {
    assert_eq!(PIVOT_TOLERANCE, 10_000_000);
    assert_eq!(RESIDUE_TOLERANCE, 1_000);
    assert_eq!(1.0 / f64::from(PIVOT_TOLERANCE), 0.0000001);
    assert_eq!(1.0 / f64::from(RESIDUE_TOLERANCE), 0.001);
}

#[test]
fn an_entry_at_the_tolerance_is_neither_negligible_nor_a_leading_entry() {
    let mut m = matrix(vec![0.0000001, 2.0, 0.0000001, 4.0], 2, 2);
    assert_eq!(m.leading(&Doubles, 0), Some(1));
    m.ref_matrix(&Doubles);
    assert_eq!(m.data, vec![0.0000001, 0.0, 0.0, 2.0]);
}

#[test]
fn reduced_row_echelon_form_solves_a_system() {
    let mut m = matrix(
        vec![2.0, 4.0, -2.0, 2.0, 4.0, 9.0, -3.0, 8.0, -2.0, -3.0, 7.0, 10.0],
        3,
        4,
    );
    m.rref_matrix(&Doubles);
    assert!(close(
        &m.data,
        &[1.0, 0.0, 0.0, -1.0, 0.0, 1.0, 0.0, 2.0, 0.0, 0.0, 1.0, 2.0],
        1e-9
    ));
}

#[test]
fn reduced_row_echelon_form_of_a_singular_matrix() {
    let mut m = matrix(vec![1.0, 2.0, 2.0, 4.0], 2, 2);
    m.rref_matrix(&Doubles);
    assert_eq!(m.data, vec![1.0, 2.0, 0.0, 0.0]);
}

#[test]
fn reducing_twice_is_reducing_once() {
    let starts = [
        matrix(
            vec![2.0, 4.0, -2.0, 2.0, 4.0, 9.0, -3.0, 8.0, -2.0, -3.0, 7.0, 10.0],
            3,
            4,
        ),
        matrix(vec![1.0, 2.0, 2.0, 4.0], 2, 2),
        matrix(vec![0.0, 2.0, 4.0, 0.0, 1.0, 5.0], 2, 3),
        matrix(vec![4.0, 7.0, 2.0, 6.0, 1.0, 3.0, 5.0, 9.0, 8.0], 3, 3),
        matrix(vec![3.0], 1, 1),
        matrix(vec![0.0; 4], 2, 2),
    ];
    for start in starts {
        let mut once = start.duplicate();
        once.rref_matrix(&Doubles);
        let mut twice = once.duplicate();
        twice.rref_matrix(&Doubles);
        assert!(close(&twice.data, &once.data, 1e-12));
        assert_eq!((twice.rows, twice.cols), (start.rows, start.cols));
    }
}

#[test]
fn a_matrix_in_reduced_form_is_its_own_reduced_form() {
    let entries = vec![
        1.0, 0.0, 2.5, 0.0, 0.0, 1.0, -3.0, 0.0, 0.0, 0.0, 0.0, 1.0, 0.0, 0.0, 0.0, 0.0,
    ];
    let mut m = matrix(entries.clone(), 4, 4);
    m.rref_matrix(&Doubles);
    assert_eq!(m.data, entries);
    let mut shifted = matrix(vec![0.0, 1.0, 7.0, 0.0, 0.0, 0.0], 2, 3);
    shifted.rref_matrix(&Doubles);
    assert_eq!(shifted.data, vec![0.0, 1.0, 7.0, 0.0, 0.0, 0.0]);
}

#[test]
fn a_reduced_matrix_with_negligible_entries_is_its_own_reduced_form() {
    let entries = vec![0.000000001, 1.0, 2.0, 0.0000000001, 0.0, 0.00000001];
    let mut m = matrix(entries.clone(), 2, 3);
    m.rref_matrix(&Doubles);
    assert_eq!(m.data, entries);
}

#[test]
fn reducing_twice_differs_where_scaling_lifts_an_entry_over_the_tolerance() {
    let mut once = matrix(vec![0.00000005, 0.0000002], 1, 2);
    once.rref_matrix(&Doubles);
    assert!(close(&once.data, &[0.25, 1.0], 1e-12));
    assert_eq!(once.data[1], 1.0);
    let mut twice = once.duplicate();
    twice.rref_matrix(&Doubles);
    assert!(close(&twice.data, &[1.0, 4.0], 1e-12));
}

#[test]
fn clear_residue_puts_zero_in_place_of_small_entries() {
    let mut m = matrix(vec![0.0009, -0.0009, 0.001, -0.002, 5.0, 0.0], 2, 3);
    m.clear_residue(&Doubles, 0.0);
    assert_eq!(m.data, vec![0.0, 0.0, 0.001, -0.002, 5.0, 0.0]);
}

#[test]
fn inverse_of_a_matrix_that_is_not_square_is_refused() {
    let mut m = matrix(vec![1.0, 2.0, 3.0, 4.0, 5.0, 6.0], 2, 3);
    assert!(!m.inverse(&Doubles));
    assert_eq!(m.data, vec![1.0, 2.0, 3.0, 4.0, 5.0, 6.0]);
    assert_eq!((m.rows, m.cols), (2, 3));
}

#[test]
fn inverse_of_a_diagonal_matrix() {
    let mut m = matrix(vec![2.0, 0.0, 0.0, 4.0], 2, 2);
    assert!(m.inverse(&Doubles));
    assert_eq!(m.data, vec![0.5, 0.0, 0.0, 0.25]);
    assert_eq!((m.rows, m.cols), (2, 2));
}

#[test]
fn inverse_of_a_two_by_two_matrix() {
    let mut m = matrix(vec![4.0, 7.0, 2.0, 6.0], 2, 2);
    assert!(m.inverse(&Doubles));
    assert!(close(&m.data, &[0.6, -0.7, -0.2, 0.4], 1e-9));
}

#[test]
fn inverse_of_the_identity_is_the_identity() {
    let mut m = Matrix::new_identity(3, 0.0, 1.0);
    assert!(m.inverse(&Doubles));
    assert_eq!(m.data, Matrix::new_identity(3, 0.0, 1.0).data);
}

#[test]
fn inverse_of_a_singular_matrix_is_what_elimination_leaves() {
    let mut m = matrix(vec![1.0, 2.0, 2.0, 4.0], 2, 2);
    assert!(m.inverse(&Doubles));
    assert_eq!((m.rows, m.cols), (2, 2));
    assert_eq!(m.data.len(), 4);
}

#[test]
fn inverting_twice_gives_nearly_the_matrix_back() {
    let given = vec![4.0, 7.0, 2.0, 6.0, 1.0, 3.0, 5.0, 9.0, 8.0];
    let mut m = matrix(given.clone(), 3, 3);
    assert!(m.inverse(&Doubles));
    assert!(m.inverse(&Doubles));
    assert!(close(&m.data, &given, 0.05));
}

#[test]
fn a_matrix_times_its_inverse_is_nearly_the_identity() {
    let given = matrix(vec![2.0, 1.0, 1.0, 3.0], 2, 2);
    let mut inverse = given.duplicate();
    assert!(inverse.inverse(&Doubles));
    let product = given.product(&inverse, 0.0, &|sum: f64, a: f64, b: f64| sum + a * b);
    assert!(close(&product.data, &[1.0, 0.0, 0.0, 1.0], 1e-9));
}
