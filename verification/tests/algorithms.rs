use num_bigint::BigInt;
use strassen::api::{classical_multiply, matrices_equal, new_random_matrix, new_zero_matrix,
    strassen_multiply};
use strassen::matrix::Matrix;

fn mat(n: usize, vals: Vec<i64>) -> Matrix {
    Matrix::from_values(n, &vals)
}

#[test]
fn two_by_two_concrete() {
    let a = mat(2, vec![1, 2, 3, 4]);
    let b = mat(2, vec![5, 6, 7, 8]);
    let expected = mat(2, vec![19, 22, 43, 50]);
    let c = classical_multiply(&a, &b).unwrap();
    let s = strassen_multiply(&a, &b, 1).unwrap();
    assert!(matrices_equal(&c, &expected));
    assert!(matrices_equal(&s, &expected));
}

#[test]
fn two_by_two_concrete_entries() {
    let a = mat(2, vec![1, 2, 3, 4]);
    let b = mat(2, vec![5, 6, 7, 8]);
    let c = classical_multiply(&a, &b).unwrap();
    assert_eq!(c.get(0, 0).unwrap(), BigInt::from(19i64));
    assert_eq!(c.get(0, 1).unwrap(), BigInt::from(22i64));
    assert_eq!(c.get(1, 0).unwrap(), BigInt::from(43i64));
    assert_eq!(c.get(1, 1).unwrap(), BigInt::from(50i64));
}

#[test]
fn zero_times_random_three_by_three() {
    let z = new_zero_matrix(3);
    let low = BigInt::from(-50i64);
    let high = BigInt::from(50i64);
    let b = new_random_matrix(3, &low, &high).unwrap();
    let c = classical_multiply(&z, &b).unwrap();
    let s = strassen_multiply(&z, &b, 1).unwrap();
    assert!(matrices_equal(&c, &new_zero_matrix(3)));
    assert!(matrices_equal(&s, &new_zero_matrix(3)));
}

#[test]
fn zero_absorption_both_sides() {
    let a = mat(3, vec![1, -2, 3, 4, 5, -6, 7, 8, 9]);
    let z = new_zero_matrix(3);
    let left = classical_multiply(&z, &a).unwrap();
    let right = classical_multiply(&a, &z).unwrap();
    let s_left = strassen_multiply(&z, &a, 1).unwrap();
    let s_right = strassen_multiply(&a, &z, 2).unwrap();
    assert!(matrices_equal(&left, &z));
    assert!(matrices_equal(&right, &z));
    assert!(matrices_equal(&s_left, &z));
    assert!(matrices_equal(&s_right, &z));
}

#[test]
fn identity_multiplication() {
    let a = mat(4, vec![1, 2, 3, 4, 5, 6, 7, 8, 9, 10, 11, 12, 13, 14, 15, 16]);
    let id = Matrix::identity(4);
    let c = classical_multiply(&a, &id).unwrap();
    assert!(matrices_equal(&c, &a));
    let c_left = classical_multiply(&id, &a).unwrap();
    assert!(matrices_equal(&c_left, &a));
    for k in [1usize, 2, 3, 4] {
        let s = strassen_multiply(&a, &id, k).unwrap();
        assert!(matrices_equal(&s, &a));
    }
}

#[test]
fn padding_non_power_of_two() {
    for n in [3usize, 5, 6] {
        let low = BigInt::from(-9i64);
        let high = BigInt::from(9i64);
        let a = new_random_matrix(n, &low, &high).unwrap();
        let b = new_random_matrix(n, &low, &high).unwrap();
        let c = classical_multiply(&a, &b).unwrap();
        for k in [1usize, 2] {
            let s = strassen_multiply(&a, &b, k).unwrap();
            assert!(matrices_equal(&s, &c));
        }
    }
}

#[test]
fn base_case_boundary() {
    let n: usize = 4;
    let low = BigInt::from(-100i64);
    let high = BigInt::from(100i64);
    let a = new_random_matrix(n, &low, &high).unwrap();
    let b = new_random_matrix(n, &low, &high).unwrap();
    let immediate = strassen_multiply(&a, &b, n).unwrap();
    let maximal = strassen_multiply(&a, &b, 1).unwrap();
    let c = classical_multiply(&a, &b).unwrap();
    assert!(matrices_equal(&immediate, &maximal));
    assert!(matrices_equal(&immediate, &c));
}

#[test]
fn equivalence_on_random_inputs() {
    for n in 1usize..=8 {
        let low = BigInt::from(-1000i64);
        let high = BigInt::from(1000i64);
        let a = new_random_matrix(n, &low, &high).unwrap();
        let b = new_random_matrix(n, &low, &high).unwrap();
        let c = classical_multiply(&a, &b).unwrap();
        for k in 1usize..=n {
            let s = strassen_multiply(&a, &b, k).unwrap();
            assert!(matrices_equal(&s, &c));
        }
    }
}

#[test]
fn random_matrix_respects_inclusive_range() {
    let low = BigInt::from(5i64);
    let high = BigInt::from(9i64);
    let m = new_random_matrix(4, &low, &high).unwrap();
    for i in 0..4 {
        for j in 0..4 {
            let v = m.get(i, j).unwrap();
            assert!(v >= low && v <= high);
        }
    }
}

#[test]
fn add_sub_round_trip() {
    let a = mat(3, vec![1, 2, 3, 4, 5, 6, 7, 8, 9]);
    let b = mat(3, vec![9, 8, 7, 6, 5, 4, 3, 2, 1]);
    let sum = a.add(&b);
    let back = sum.sub(&b);
    assert!(matrices_equal(&back, &a));
    let expected_sum = mat(3, vec![10, 10, 10, 10, 10, 10, 10, 10, 10]);
    assert!(matrices_equal(&sum, &expected_sum));
}

#[test]
fn equality_distinguishes() {
    let a = mat(2, vec![1, 2, 3, 4]);
    let b = mat(2, vec![1, 2, 3, 5]);
    let c = mat(3, vec![1, 2, 3, 4, 5, 6, 7, 8, 9]);
    assert!(matrices_equal(&a, &a));
    assert!(!matrices_equal(&a, &b));
    assert!(!matrices_equal(&a, &c));
}

#[test]
fn big_values_survive_multiplication() {
    // Values far beyond any machine width: (10^30) * (10^30) == 10^60.
    let big = BigInt::parse_bytes(b"1000000000000000000000000000000", 10).unwrap();
    let mut a = new_zero_matrix(2);
    a.set(0, 0, big.clone()).unwrap();
    let mut b = new_zero_matrix(2);
    b.set(0, 0, big.clone()).unwrap();
    let c = classical_multiply(&a, &b).unwrap();
    let s = strassen_multiply(&a, &b, 1).unwrap();
    let expected = BigInt::parse_bytes(
        b"1000000000000000000000000000000000000000000000000000000000000",
        10,
    )
    .unwrap();
    assert_eq!(c.get(0, 0).unwrap(), expected);
    assert!(matrices_equal(&c, &s));
}
