//! The entry points toward a caller: creation, the two multipliers with their
//! dimension checks, equality, and the instrumented forms.

use vstd::prelude::*;
use crate::matrix::{Matrix, MatrixError, prod_entry, matrix_eq};
use crate::scalar::big_value;
use crate::count::{OperationCount, mul_zero_total, add_zero_total};
use num_bigint::BigInt;

verus! {

/// An `n * n` matrix with every element drawn from the inclusive range
/// `[low, high]`; rejects a zero dimension.
pub fn new_random_matrix(n: usize, low: &BigInt, high: &BigInt) -> (r: Result<
    Matrix,
    MatrixError,
>)
    requires
        n * n <= usize::MAX,
        big_value(*low) <= big_value(*high),
    ensures
        match r {
            Ok(mat) => {
                &&& n >= 1
                &&& mat.wf()
                &&& mat.n() == n
                &&& forall|i: int, j: int|
                    0 <= i < n && 0 <= j < n
                        ==> big_value(*low) <= #[trigger] mat.at(i, j) <= big_value(*high)
            },
            Err(e) => e == MatrixError::InvalidDimension && n == 0,
        },
{
    if n == 0 {
        Err(MatrixError::InvalidDimension)
    } else {
        let range = (crate::scalar::big_clone(low), crate::scalar::big_clone(high));
        Ok(Matrix::new(n, &range))
    }
}

/// The `n * n` zero matrix.
pub fn new_zero_matrix(n: usize) -> (r: Matrix)
    requires
        n * n <= usize::MAX,
    ensures
        r.wf(),
        r.n() == n,
        forall|i: int, j: int| 0 <= i < n && 0 <= j < n ==> r.at(i, j) == 0,
{
    Matrix::zero_filled(n)
}

/// Classical multiplication; rejects operands of unequal dimension.
pub fn classical_multiply(a: &Matrix, b: &Matrix) -> (r: Result<Matrix, MatrixError>)
    requires
        a.wf(),
        b.wf(),
    ensures
        match r {
            Ok(c) => {
                &&& a.n() == b.n()
                &&& c.wf()
                &&& c.n() == a.n()
                &&& forall|i: int, j: int|
                    0 <= i < a.n() && 0 <= j < a.n()
                        ==> c.at(i, j) == #[trigger] prod_entry(*a, *b, i, j)
            },
            Err(e) => e == MatrixError::DimensionMismatch && a.n() != b.n(),
        },
{
    if a.dim() != b.dim() {
        Err(MatrixError::DimensionMismatch)
    } else {
        Ok(a.multiply(b))
    }
}

/// Strassen multiplication with the given base-case threshold; rejects
/// operands of unequal dimension and a zero threshold.
pub fn strassen_multiply(a: &Matrix, b: &Matrix, base_case: usize) -> (r: Result<
    Matrix,
    MatrixError,
>)
    requires
        a.wf(),
        b.wf(),
        4 * (a.n() * a.n()) <= usize::MAX,
    ensures
        match r {
            Ok(c) => {
                &&& a.n() == b.n()
                &&& base_case >= 1
                &&& c.wf()
                &&& c.n() == a.n()
                &&& forall|i: int, j: int|
                    0 <= i < a.n() && 0 <= j < a.n()
                        ==> c.at(i, j) == #[trigger] prod_entry(*a, *b, i, j)
            },
            Err(e) => (e == MatrixError::DimensionMismatch && a.n() != b.n()) || (e
                == MatrixError::InvalidDimension && a.n() == b.n() && base_case == 0),
        },
{
    if a.dim() != b.dim() {
        Err(MatrixError::DimensionMismatch)
    } else if base_case == 0 {
        Err(MatrixError::InvalidDimension)
    } else {
        Ok(a.multiply_strassen(b, base_case))
    }
}

/// True exactly when the matrices have equal dimension and pairwise equal
/// elements.
pub fn matrices_equal(a: &Matrix, b: &Matrix) -> (r: bool)
    requires
        a.wf(),
        b.wf(),
    ensures
        r == matrix_eq(*a, *b),
{
    a.is_equal(b)
}

/// Classical multiplication with operation tallies; rejects operands of
/// unequal dimension.  The tallies total `n * n * n` multiplications and
/// `n * n * (n - 1)` counted accumulations, split exactly as the counting
/// spec functions say.
pub fn classical_multiply_with_count(a: &Matrix, b: &Matrix) -> (r: Result<
    (Matrix, OperationCount),
    MatrixError,
>)
    requires
        a.wf(),
        b.wf(),
    ensures
        match r {
            Ok(pair) => {
                &&& a.n() == b.n()
                &&& pair.0.wf()
                &&& pair.0.n() == a.n()
                &&& forall|i: int, j: int|
                    0 <= i < a.n() && 0 <= j < a.n()
                        ==> pair.0.at(i, j) == #[trigger] prod_entry(*a, *b, i, j)
                &&& pair.1.mul_zero == mul_zero_total(*a, *b)
                &&& pair.1.mul_zero + pair.1.mul_nonzero == a.n() * a.n() * a.n()
                &&& pair.1.add_zero == add_zero_total(*a, *b)
                &&& pair.1.add_zero + pair.1.add_nonzero == a.n() * a.n() * (a.n() - 1)
            },
            Err(e) => e == MatrixError::DimensionMismatch && a.n() != b.n(),
        },
{
    if a.dim() != b.dim() {
        Err(MatrixError::DimensionMismatch)
    } else {
        Ok(a.multiply_with_count(b))
    }
}

} // verus!
