use rust_concurrency::matrix::{dot_product, multiply, Matrix, MultiplyError};

#[test]
fn test_matrix_multiply() {
    let a = Matrix::new(vec![1, 2, 3, 4], 2, 2);
    let b = Matrix::new(vec![1, 2, 3, 4], 2, 2);
    let c = multiply(&a, &b).unwrap();
    assert_eq!(c.row, 2);
    assert_eq!(c.col, 2);
    assert_eq!(c.data, vec![7, 10, 15, 22]);
}

#[test]
fn test_matrix_display() {
    let a = Matrix::new(vec![1, 2, 3, 4], 2, 2);
    assert_eq!(a.to_string(), "{1 2,3 4}");
}

#[test]
fn test_matrix_debug() {
    let a = Matrix::new(vec![1, 2, 3, 4], 2, 2);
    assert_eq!(a.to_debug_string(), "Matrix(row=2, col=2, data={1 2,3 4})");
}

#[test]
fn test_dot_product() {
    let a = vec![1, 2, 3];
    let b = vec![4, 5, 6];
    assert_eq!(dot_product(a, b).unwrap(), 32);
}

#[test]
fn dot_product_of_unequal_lengths_is_a_mismatch() {
    assert_eq!(
        dot_product(vec![1, 2], vec![1, 2, 3]),
        Err(MultiplyError::DimensionMismatch)
    );
}

#[test]
fn dot_product_of_empty_sequences_is_zero() {
    assert_eq!(dot_product(vec![], vec![]), Ok(0));
}

#[test]
fn dot_product_with_negative_values() {
    assert_eq!(dot_product(vec![-3, 2], vec![5, -7]), Ok(-29));
}

#[test]
fn product_of_two_by_two_displays_its_cells() {
    let a = Matrix::new(vec![1, 2, 3, 4], 2, 2);
    let b = Matrix::new(vec![1, 2, 3, 4], 2, 2);
    let c = multiply(&a, &b).unwrap();
    assert_eq!(c.to_string(), "{7 10,15 22}");
}

#[test]
fn product_of_hundred_square_ones_is_all_hundreds() {
    let a = Matrix::new(vec![1; 100 * 100], 100, 100);
    let b = Matrix::new(vec![1; 100 * 100], 100, 100);
    let c = multiply(&a, &b).unwrap();
    assert_eq!(c.row, 100);
    assert_eq!(c.col, 100);
    assert!(c.data.iter().all(|&x| x == 100));
}

#[test]
fn product_of_rectangular_matrices() {
    let a = Matrix::new(vec![1, 2, 3, 4, 5, 6], 2, 3);
    let b = Matrix::new(vec![7, 8, 9, 10, 11, 12], 3, 2);
    let c = multiply(&a, &b).unwrap();
    assert_eq!((c.row, c.col), (2, 2));
    assert_eq!(c.data, vec![58, 64, 139, 154]);
}

#[test]
fn multiply_with_mismatched_dimensions_fails() {
    let a = Matrix::new(vec![1, 2, 3, 4, 5, 6], 2, 3);
    let b = Matrix::new(vec![1, 2, 3, 4], 2, 2);
    assert!(matches!(multiply(&a, &b), Err(MultiplyError::DimensionMismatch)));
}

#[test]
fn multiply_by_identity_gives_the_matrix_back() {
    let a = Matrix::new(vec![5, -1, 2, 0, 3, 8], 2, 3);
    let right = Matrix::new(vec![1, 0, 0, 0, 1, 0, 0, 0, 1], 3, 3);
    let left = Matrix::new(vec![1, 0, 0, 1], 2, 2);
    let c = multiply(&a, &right).unwrap();
    assert_eq!((c.row, c.col), (2, 3));
    assert_eq!(c.data, a.data);
    let d = multiply(&left, &a).unwrap();
    assert_eq!((d.row, d.col), (2, 3));
    assert_eq!(d.data, a.data);
}

#[test]
fn display_of_negative_and_multi_digit_cells() {
    let a = Matrix::new(vec![-12, 0, 305, i64::MIN, i64::MAX, 7], 2, 3);
    assert_eq!(
        a.to_string(),
        "{-12 0 305,-9223372036854775808 9223372036854775807 7}"
    );
}

#[test]
fn display_of_empty_and_single_shapes() {
    assert_eq!(Matrix::new(vec![], 0, 0).to_string(), "{}");
    assert_eq!(Matrix::new(vec![9], 1, 1).to_string(), "{9}");
    assert_eq!(Matrix::new(vec![1, 2, 3], 3, 1).to_string(), "{1,2,3}");
    assert_eq!(Matrix::new(vec![1, 2, 3], 1, 3).to_string(), "{1 2 3}");
}

#[test]
fn debug_text_of_a_rectangular_matrix() {
    let a = Matrix::new(vec![1, 2, 3], 1, 3);
    assert_eq!(a.to_debug_string(), "Matrix(row=1, col=3, data={1 2 3})");
}

#[test]
fn new_stores_data_of_any_length() {
    let a = Matrix::new(vec![1, 2, 3], 2, 2);
    assert_eq!((a.row, a.col), (2, 2));
    assert_eq!(a.data, vec![1, 2, 3]);
}
