use matrix::render::i64_to_string;
use matrix::Matrix;
use matrix::MatrixError;

fn from_rows(v: Vec<Vec<i64>>) -> Matrix {
    Matrix::try_from(v).expect("Invalid matrix")
}

#[test]
fn addition() {
    let m1 = from_rows(vec![vec![1, 2], vec![3, 4]]);
    let m2 = from_rows(vec![vec![5, 6], vec![7, 8]]);

    assert_eq!(m1.add(m2), from_rows(vec![vec![6, 8], vec![10, 12]]))
}

#[test]
fn matmul() {
    let m1 = from_rows(vec![vec![1, 2], vec![3, 4]]);
    let m2 = from_rows(vec![vec![5, 6, 7], vec![8, 9, 10]]);

    assert_eq!(
        m1.mul(m2),
        from_rows(vec![vec![21, 24, 27], vec![47, 54, 61]])
    )
}

#[test]
fn new_fills_with_zeros() {
    let m = Matrix::new(2, 3);
    assert_eq!(m.rows(), 2);
    assert_eq!(m.cols(), 3);
    for i in 0..2 {
        for j in 0..3 {
            assert_eq!(m.get(i, j), 0);
        }
    }
}

#[test]
fn round_trip_layout() {
    let rows = vec![vec![1, 2, 3], vec![4, 5, 6]];
    let m = from_rows(rows.clone());
    assert_eq!(m.rows(), 2);
    assert_eq!(m.cols(), 3);
    for i in 0..2 {
        for j in 0..3 {
            assert_eq!(m.get(i, j), rows[i][j]);
        }
    }
}

#[test]
fn empty_input_rejected() {
    let r = Matrix::try_from(vec![]);
    assert_eq!(r.unwrap_err(), MatrixError::EmptyInput);
    assert_eq!(MatrixError::EmptyInput.message(), "Nested vec is empty");
}

#[test]
fn empty_row_rejected() {
    let r = Matrix::try_from(vec![vec![]]);
    assert_eq!(r.unwrap_err(), MatrixError::EmptyRow);
    assert_eq!(
        MatrixError::EmptyRow.message(),
        "Nested vec contains an empty row"
    );
}

#[test]
fn ragged_rows_rejected() {
    let r = Matrix::try_from(vec![vec![1, 2], vec![3]]);
    assert_eq!(r.unwrap_err(), MatrixError::RaggedRows);
    assert_eq!(MatrixError::RaggedRows.message(), "Nested vec is not a matrix");
}

#[test]
fn ragged_later_row_rejected() {
    let r = Matrix::try_from(vec![vec![1, 2], vec![3, 4], vec![5, 6, 7]]);
    assert_eq!(r.unwrap_err(), MatrixError::RaggedRows);
}

#[test]
fn addition_commutes() {
    let a = || from_rows(vec![vec![1, -2], vec![30, 4]]);
    let b = || from_rows(vec![vec![-7, 6], vec![5, 0]]);
    assert_eq!(a().add(b()), b().add(a()));
}

#[test]
fn addition_zero_identity() {
    let a = || from_rows(vec![vec![9, -3], vec![0, 12]]);
    let z = Matrix::new(2, 2);
    assert_eq!(a().add(z), a());
}

#[test]
fn addition_near_extremes() {
    let a = from_rows(vec![vec![i64::MAX - 1, i64::MIN + 5]]);
    let b = from_rows(vec![vec![1, -5]]);
    let c = a.add(b);
    assert_eq!(c.get(0, 0), i64::MAX);
    assert_eq!(c.get(0, 1), i64::MIN);
}

#[test]
fn matmul_single_cell() {
    let a = from_rows(vec![vec![7]]);
    let b = from_rows(vec![vec![6]]);
    assert_eq!(a.mul(b), from_rows(vec![vec![42]]));
}

#[test]
fn equality_of_identical_input() {
    let a = from_rows(vec![vec![1, 2], vec![3, 4]]);
    let b = from_rows(vec![vec![1, 2], vec![3, 4]]);
    assert_eq!(a, b);
}

#[test]
fn single_change_breaks_equality() {
    let a = from_rows(vec![vec![1, 2], vec![3, 4]]);
    let mut b = from_rows(vec![vec![1, 2], vec![3, 4]]);
    b.set(1, 0, 99);
    assert_ne!(a, b);
    assert_eq!(b.get(1, 0), 99);
}

#[test]
fn shape_mismatch_breaks_equality() {
    let a = from_rows(vec![vec![1, 2, 3]]);
    let b = from_rows(vec![vec![1], vec![2], vec![3]]);
    assert_ne!(a, b);
}

#[test]
fn set_overwrites_one_cell() {
    let mut m = from_rows(vec![vec![1, 2], vec![3, 4]]);
    m.set(0, 1, -8);
    assert_eq!(m.get(0, 0), 1);
    assert_eq!(m.get(0, 1), -8);
    assert_eq!(m.get(1, 0), 3);
    assert_eq!(m.get(1, 1), 4);
}

#[test]
fn render_tab_separated_rows() {
    let m = from_rows(vec![vec![1, 2], vec![3, 4]]);
    assert_eq!(m.render(), "1\t2\t\n3\t4\t\n");
}

#[test]
fn render_negative_and_zero() {
    let m = from_rows(vec![vec![-5, 0]]);
    assert_eq!(m.render(), "-5\t0\t\n");
}

#[test]
fn decimal_text_of_extremes() {
    assert_eq!(i64_to_string(0), "0");
    assert_eq!(i64_to_string(42), "42");
    assert_eq!(i64_to_string(-1), "-1");
    assert_eq!(i64_to_string(i64::MAX), "9223372036854775807");
    assert_eq!(i64_to_string(i64::MIN), "-9223372036854775808");
}
