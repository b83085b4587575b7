use num_bigint::BigInt;
use strassen::api::{classical_multiply, classical_multiply_with_count, new_random_matrix,
    new_zero_matrix, strassen_multiply};
use strassen::count::OperationCount;
use strassen::matrix::{Matrix, MatrixError};

fn mat(n: usize, vals: Vec<i64>) -> Matrix {
    Matrix::from_values(n, &vals)
}

#[test]
fn multiplication_count_conservation() {
    let n: usize = 3;
    let low = BigInt::from(-5i64);
    let high = BigInt::from(5i64);
    let a = new_random_matrix(n, &low, &high).unwrap();
    let b = new_random_matrix(n, &low, &high).unwrap();
    let (_, counts) = classical_multiply_with_count(&a, &b).unwrap();
    let n3 = (n * n * n) as u128;
    let n2 = (n * n) as u128;
    assert_eq!(counts.mul_zero + counts.mul_nonzero, n3);
    assert_eq!(counts.add_zero + counts.add_nonzero, n3 - n2);
}

#[test]
fn multiplication_count_exact_split() {
    // a has zeros on the diagonal positions (0,0) and (1,1); b is all ones.
    let a = mat(2, vec![0, 1, 1, 0]);
    let b = mat(2, vec![1, 1, 1, 1]);
    let (prod, counts) = classical_multiply_with_count(&a, &b).unwrap();
    let expected = mat(2, vec![1, 1, 1, 1]);
    assert!(strassen::api::matrices_equal(&prod, &expected));
    // Multiplications: each zero element of a is an operand twice.
    assert_eq!(counts.mul_zero, 4);
    assert_eq!(counts.mul_nonzero, 4);
    // Counted accumulations: for row 0 the accumulator is still zero, for
    // row 1 the incoming term is zero.
    assert_eq!(counts.add_zero, 4);
    assert_eq!(counts.add_nonzero, 0);
}

#[test]
fn multiplication_count_all_nonzero() {
    let a = mat(2, vec![1, 2, 3, 4]);
    let b = mat(2, vec![5, 6, 7, 8]);
    let (_, counts) = classical_multiply_with_count(&a, &b).unwrap();
    assert_eq!(counts.mul_zero, 0);
    assert_eq!(counts.mul_nonzero, 8);
    assert_eq!(counts.add_zero, 0);
    assert_eq!(counts.add_nonzero, 4);
}

#[test]
fn elementwise_count_split() {
    let a = mat(2, vec![1, 0, 0, 2]);
    let b = mat(2, vec![0, 0, 5, 6]);
    let (sum, counts) = a.add_with_count(&b);
    assert!(strassen::api::matrices_equal(&sum, &mat(2, vec![1, 0, 5, 8])));
    assert_eq!(counts.add_zero, 3);
    assert_eq!(counts.add_nonzero, 1);
    assert_eq!(counts.mul_zero, 0);
    assert_eq!(counts.mul_nonzero, 0);
    let (diff, dcounts) = a.sub_with_count(&b);
    assert!(strassen::api::matrices_equal(&diff, &mat(2, vec![1, 0, -5, -4])));
    assert_eq!(dcounts.add_zero, 3);
    assert_eq!(dcounts.add_nonzero, 1);
}

#[test]
fn count_combination() {
    let a = OperationCount { mul_nonzero: 1, mul_zero: 2, add_nonzero: 3, add_zero: 4 };
    let b = OperationCount { mul_nonzero: 10, mul_zero: 20, add_nonzero: 30, add_zero: 40 };
    let c = a.combine(&b);
    assert_eq!(c.mul_nonzero, 11);
    assert_eq!(c.mul_zero, 22);
    assert_eq!(c.add_nonzero, 33);
    assert_eq!(c.add_zero, 44);
    let d = b.combine(&a);
    assert_eq!(d.mul_nonzero, c.mul_nonzero);
    assert_eq!(d.mul_zero, c.mul_zero);
    assert_eq!(d.add_nonzero, c.add_nonzero);
    assert_eq!(d.add_zero, c.add_zero);
}

#[test]
fn dimension_mismatch_is_reported() {
    let a = mat(2, vec![1, 2, 3, 4]);
    let b = mat(3, vec![1, 2, 3, 4, 5, 6, 7, 8, 9]);
    assert_eq!(classical_multiply(&a, &b).unwrap_err(), MatrixError::DimensionMismatch);
    assert_eq!(strassen_multiply(&a, &b, 1).unwrap_err(), MatrixError::DimensionMismatch);
    assert_eq!(
        classical_multiply_with_count(&a, &b).unwrap_err(),
        MatrixError::DimensionMismatch
    );
}

#[test]
fn invalid_dimension_is_reported() {
    let low = BigInt::from(0i64);
    let high = BigInt::from(1i64);
    assert_eq!(new_random_matrix(0, &low, &high).unwrap_err(), MatrixError::InvalidDimension);
    let a = mat(2, vec![1, 2, 3, 4]);
    assert_eq!(strassen_multiply(&a, &a, 0).unwrap_err(), MatrixError::InvalidDimension);
}

#[test]
fn index_out_of_bounds_is_reported() {
    let mut a = mat(2, vec![1, 2, 3, 4]);
    assert_eq!(a.get(2, 0).unwrap_err(), MatrixError::IndexOutOfBounds);
    assert_eq!(a.get(0, 2).unwrap_err(), MatrixError::IndexOutOfBounds);
    assert_eq!(
        a.set(2, 2, BigInt::from(7i64)).unwrap_err(),
        MatrixError::IndexOutOfBounds
    );
    assert_eq!(a.get(1, 1).unwrap(), BigInt::from(4i64));
    a.set(1, 1, BigInt::from(7i64)).unwrap();
    assert_eq!(a.get(1, 1).unwrap(), BigInt::from(7i64));
}

#[test]
fn zero_matrix_is_zero() {
    let z = new_zero_matrix(3);
    for i in 0..3 {
        for j in 0..3 {
            assert_eq!(z.get(i, j).unwrap(), BigInt::from(0i64));
        }
    }
}

#[test]
fn identity_matrix_entries() {
    let id = Matrix::identity(3);
    for i in 0..3 {
        for j in 0..3 {
            let expected = if i == j { 1i64 } else { 0i64 };
            assert_eq!(id.get(i, j).unwrap(), BigInt::from(expected));
        }
    }
}
