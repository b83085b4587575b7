//! The instrumented variant of the classical operations: every scalar
//! multiplication and accumulation is classified as zero-involving (an operand
//! is the scalar zero) or non-zero, and tallied.  The first accumulation into
//! each output cell, against the zero-initialized accumulator, is not counted.

use vstd::prelude::*;
use crate::matrix::{Matrix, dot, prod_entry};
use crate::scalar::{big_value, big_add, big_sub, big_mul, big_is_zero};

verus! {

/// Tallies of scalar operations, split by whether an operand was zero.
/// Combining two tallies is element-wise addition.
#[derive(Debug)]
pub struct OperationCount {
    pub mul_nonzero: u128,
    pub mul_zero: u128,
    pub add_nonzero: u128,
    pub add_zero: u128,
}

impl OperationCount {
    /// The zero-initialized tally.
    pub fn new() -> (r: OperationCount)
        ensures
            r.mul_nonzero == 0,
            r.mul_zero == 0,
            r.add_nonzero == 0,
            r.add_zero == 0,
    {
        OperationCount { mul_nonzero: 0, mul_zero: 0, add_nonzero: 0, add_zero: 0 }
    }

    /// Element-wise addition of two tallies.
    pub fn combine(&self, other: &OperationCount) -> (r: OperationCount)
        requires
            self.mul_nonzero + other.mul_nonzero <= u128::MAX,
            self.mul_zero + other.mul_zero <= u128::MAX,
            self.add_nonzero + other.add_nonzero <= u128::MAX,
            self.add_zero + other.add_zero <= u128::MAX,
        ensures
            r.mul_nonzero == self.mul_nonzero + other.mul_nonzero,
            r.mul_zero == self.mul_zero + other.mul_zero,
            r.add_nonzero == self.add_nonzero + other.add_nonzero,
            r.add_zero == self.add_zero + other.add_zero,
    {
        OperationCount {
            mul_nonzero: self.mul_nonzero + other.mul_nonzero,
            mul_zero: self.mul_zero + other.mul_zero,
            add_nonzero: self.add_nonzero + other.add_nonzero,
            add_zero: self.add_zero + other.add_zero,
        }
    }
}

/// The spec-level combination of two tallies: element-wise addition of the
/// four counters, as mathematical integers.
pub open spec fn combined(x: OperationCount, y: OperationCount) -> (int, int, int, int) {
    (
        x.mul_nonzero + y.mul_nonzero,
        x.mul_zero + y.mul_zero,
        x.add_nonzero + y.add_nonzero,
        x.add_zero + y.add_zero,
    )
}

/// Combining tallies is commutative, so the order in which sub-results are
/// folded cannot affect the totals; element-wise integer addition makes the
/// combination associative as well.
pub proof fn lemma_combine_commutes(x: OperationCount, y: OperationCount)
    ensures
        combined(x, y) == combined(y, x),
{
}

/// One when the scalar multiplication at loop position `(i, k, j)` is
/// zero-involving (an operand is zero), zero otherwise.
pub open spec fn mul_zero_ind(a: Matrix, b: Matrix, i: int, k: int, j: int) -> int {
    if a.at(i, k) == 0 || b.at(k, j) == 0 {
        1
    } else {
        0
    }
}

/// Zero-involving multiplications in slice `(i, k)`, over columns `[0, t)`.
pub open spec fn mul_zero_j(a: Matrix, b: Matrix, i: int, k: int, t: int) -> int
    decreases t,
{
    if t <= 0 {
        0
    } else {
        mul_zero_j(a, b, i, k, t - 1) + mul_zero_ind(a, b, i, k, t - 1)
    }
}

/// Zero-involving multiplications in row `i`, over slices `[0, t)`.
pub open spec fn mul_zero_k(a: Matrix, b: Matrix, i: int, t: int) -> int
    decreases t,
{
    if t <= 0 {
        0
    } else {
        mul_zero_k(a, b, i, t - 1) + mul_zero_j(a, b, i, t - 1, a.n())
    }
}

/// Zero-involving multiplications over rows `[0, t)`.
pub open spec fn mul_zero_i(a: Matrix, b: Matrix, t: int) -> int
    decreases t,
{
    if t <= 0 {
        0
    } else {
        mul_zero_i(a, b, t - 1) + mul_zero_k(a, b, t - 1, a.n())
    }
}

/// Zero-involving multiplications of the whole classical multiplication.
pub open spec fn mul_zero_total(a: Matrix, b: Matrix) -> int {
    mul_zero_i(a, b, a.n())
}

/// One when the accumulation at loop position `(i, k, j)` is zero-involving:
/// the accumulator holds the partial dot product over `[0, k)` and the other
/// operand is the scalar product at `(i, k, j)`.
pub open spec fn add_zero_ind(a: Matrix, b: Matrix, i: int, k: int, j: int) -> int {
    if dot(a, b, i, j, k) == 0 || a.at(i, k) * b.at(k, j) == 0 {
        1
    } else {
        0
    }
}

/// Zero-involving accumulations in slice `(i, k)`, over columns `[0, t)`.
pub open spec fn add_zero_j(a: Matrix, b: Matrix, i: int, k: int, t: int) -> int
    decreases t,
{
    if t <= 0 {
        0
    } else {
        add_zero_j(a, b, i, k, t - 1) + add_zero_ind(a, b, i, k, t - 1)
    }
}

/// Zero-involving accumulations in row `i`, over slices `[0, t)`; the first
/// slice (`k == 0`) accumulates into the zero-initialized cells and is not
/// counted.
pub open spec fn add_zero_k(a: Matrix, b: Matrix, i: int, t: int) -> int
    decreases t,
{
    if t <= 0 {
        0
    } else {
        add_zero_k(a, b, i, t - 1) + if t - 1 == 0 {
            0
        } else {
            add_zero_j(a, b, i, t - 1, a.n())
        }
    }
}

/// Zero-involving accumulations over rows `[0, t)`.
pub open spec fn add_zero_i(a: Matrix, b: Matrix, t: int) -> int
    decreases t,
{
    if t <= 0 {
        0
    } else {
        add_zero_i(a, b, t - 1) + add_zero_k(a, b, t - 1, a.n())
    }
}

/// Zero-involving accumulations of the whole classical multiplication.
pub open spec fn add_zero_total(a: Matrix, b: Matrix) -> int {
    add_zero_i(a, b, a.n())
}

/// One when the element-wise operation at `(i, j)` is zero-involving.
pub open spec fn ew_zero_ind(a: Matrix, b: Matrix, i: int, j: int) -> int {
    if a.at(i, j) == 0 || b.at(i, j) == 0 {
        1
    } else {
        0
    }
}

/// Zero-involving element-wise operations in row `i`, over columns `[0, t)`.
pub open spec fn ew_zero_j(a: Matrix, b: Matrix, i: int, t: int) -> int
    decreases t,
{
    if t <= 0 {
        0
    } else {
        ew_zero_j(a, b, i, t - 1) + ew_zero_ind(a, b, i, t - 1)
    }
}

/// Zero-involving element-wise operations over rows `[0, t)`.
pub open spec fn ew_zero_i(a: Matrix, b: Matrix, t: int) -> int
    decreases t,
{
    if t <= 0 {
        0
    } else {
        ew_zero_i(a, b, t - 1) + ew_zero_j(a, b, t - 1, a.n())
    }
}

/// Zero-involving element-wise operations of a whole addition or subtraction.
pub open spec fn ew_zero_total(a: Matrix, b: Matrix) -> int {
    ew_zero_i(a, b, a.n())
}

/// A product of loop indices inside the index cube stays under the cube size.
proof fn lemma_processed_bound(n: int, i: int, k: int, j: int)
    by (nonlinear_arith)
    requires
        0 <= i < n,
        0 <= k < n,
        0 <= j < n,
    ensures
        0 <= i * (n * n) + k * n + j < n * n * n,
{
}

/// Accumulation positions also stay under the cube size.
proof fn lemma_processed_add_bound(n: int, i: int, k: int, j: int)
    by (nonlinear_arith)
    requires
        0 <= i < n,
        1 <= k < n,
        0 <= j < n,
    ensures
        0 <= i * (n * (n - 1)) + (k - 1) * n + j < n * n * n,
{
}

/// The operation tallies of an `n * n` multiplication fit in the counters.
proof fn lemma_cube_bound(n: int, m: int)
    by (nonlinear_arith)
    requires
        0 <= n,
        n <= m,
        n * n <= m,
        0 <= m,
        m <= 0xffff_ffff_ffff_ffff,
    ensures
        n * n * n < 0xffff_ffff_ffff_ffff_ffff_ffff_ffff_ffff,
{
}

impl Matrix {
    /// Classical triple-loop multiplication, with every scalar multiplication
    /// and every counted accumulation tallied as zero-involving or non-zero.
    /// The matrix result is exactly the classical product; the four tallies
    /// are pinned by the counting spec functions, and the totals are
    /// `n * n * n` multiplications and `n * n * (n - 1)` accumulations.
    pub fn multiply_with_count(&self, m: &Matrix) -> (r: (Matrix, OperationCount))
        requires
            self.wf(),
            m.wf(),
            self.n() == m.n(),
        ensures
            r.0.wf(),
            r.0.n() == self.n(),
            forall|i: int, j: int|
                0 <= i < self.n() && 0 <= j < self.n()
                    ==> r.0.at(i, j) == prod_entry(*self, *m, i, j),
            r.1.mul_zero == mul_zero_total(*self, *m),
            r.1.mul_zero + r.1.mul_nonzero == self.n() * self.n() * self.n(),
            r.1.add_zero == add_zero_total(*self, *m),
            r.1.add_zero + r.1.add_nonzero == self.n() * self.n() * (self.n() - 1),
    {
        broadcast use crate::matrix::lemma_n_bound, crate::matrix::lemma_wf_dim_bound;

        let n = self.dim();
        proof {
            lemma_cube_bound(n as int, usize::MAX as int);
        }
        let mut res = Matrix::zero_filled(n);
        let mut mz: u128 = 0;
        let mut mn: u128 = 0;
        let mut az: u128 = 0;
        let mut an: u128 = 0;
        let mut i: usize = 0;
        while i < n
            invariant
                i <= n,
                self.wf(),
                m.wf(),
                self.n() == n,
                m.n() == n,
                n * n * n < u128::MAX,
                res.wf(),
                res.n() == n,
                forall|r2: int, c: int|
                    0 <= r2 < i && 0 <= c < n
                        ==> #[trigger] res.at(r2, c) == dot(*self, *m, r2, c, n as int),
                forall|r2: int, c: int|
                    i <= r2 < n && 0 <= c < n ==> #[trigger] res.at(r2, c) == 0,
                mz == mul_zero_i(*self, *m, i as int),
                mz + mn == i * (n * n),
                az == add_zero_i(*self, *m, i as int),
                az + an == i * (n * (n - 1)),
            decreases n - i,
        {
            let mut k: usize = 0;
            while k < n
                invariant
                    i < n,
                    k <= n,
                    self.wf(),
                    m.wf(),
                    self.n() == n,
                    m.n() == n,
                    n * n * n < u128::MAX,
                    res.wf(),
                    res.n() == n,
                    forall|r2: int, c: int|
                        0 <= r2 < i && 0 <= c < n
                            ==> #[trigger] res.at(r2, c) == dot(*self, *m, r2, c, n as int),
                    forall|c: int|
                        0 <= c < n
                            ==> #[trigger] res.at(i as int, c) == dot(*self, *m, i as int, c, k as int),
                    forall|r2: int, c: int|
                        i < r2 < n && 0 <= c < n ==> #[trigger] res.at(r2, c) == 0,
                    mz == mul_zero_i(*self, *m, i as int) + mul_zero_k(*self, *m, i as int, k as int),
                    mz + mn == i * (n * n) + k * n,
                    az == add_zero_i(*self, *m, i as int) + add_zero_k(*self, *m, i as int, k as int),
                    az + an == i * (n * (n - 1)) + if k == 0 { 0int } else { (k - 1) * n },
                decreases n - k,
            {
                let mut j: usize = 0;
                while j < n
                    invariant
                        i < n,
                        k < n,
                        j <= n,
                        self.wf(),
                        m.wf(),
                        self.n() == n,
                        m.n() == n,
                        n * n * n < u128::MAX,
                        res.wf(),
                        res.n() == n,
                        forall|r2: int, c: int|
                            0 <= r2 < i && 0 <= c < n
                                ==> #[trigger] res.at(r2, c) == dot(*self, *m, r2, c, n as int),
                        forall|c: int|
                            0 <= c < j
                                ==> #[trigger] res.at(i as int, c)
                                    == dot(*self, *m, i as int, c, k as int + 1),
                        forall|c: int|
                            j <= c < n
                                ==> #[trigger] res.at(i as int, c)
                                    == dot(*self, *m, i as int, c, k as int),
                        forall|r2: int, c: int|
                            i < r2 < n && 0 <= c < n ==> #[trigger] res.at(r2, c) == 0,
                        mz == mul_zero_i(*self, *m, i as int)
                            + mul_zero_k(*self, *m, i as int, k as int)
                            + mul_zero_j(*self, *m, i as int, k as int, j as int),
                        mz + mn == i * (n * n) + k * n + j,
                        az == add_zero_i(*self, *m, i as int)
                            + add_zero_k(*self, *m, i as int, k as int)
                            + if k == 0 {
                                0int
                            } else {
                                add_zero_j(*self, *m, i as int, k as int, j as int)
                            },
                        az + an == i * (n * (n - 1)) + if k == 0 {
                            0int
                        } else {
                            (k - 1) * n + j
                        },
                    decreases n - j,
                {
                    proof {
                        lemma_processed_bound(n as int, i as int, k as int, j as int);
                        if k > 0 {
                            lemma_processed_add_bound(n as int, i as int, k as int, j as int);
                        }
                    }
                    let cur = res.get_el(i, j);
                    let a = self.get_el(i, k);
                    let b = m.get_el(k, j);
                    if big_is_zero(&a) || big_is_zero(&b) {
                        mz = mz + 1;
                    } else {
                        mn = mn + 1;
                    }
                    let term = big_mul(&a, &b);
                    if k > 0 {
                        if big_is_zero(&cur) || big_is_zero(&term) {
                            az = az + 1;
                        } else {
                            an = an + 1;
                        }
                    }
                    res.set_el(i, j, big_add(&cur, &term));
                    j = j + 1;
                }
                proof {
                    assert(((k as int) + 1) * n == (k as int) * n + n) by (nonlinear_arith);
                    assert((k as int) * n == ((k as int) - 1) * n + n) by (nonlinear_arith);
                }
                k = k + 1;
            }
            proof {
                assert(i * (n * n) + n * n == (i + 1) * (n * n)) by (nonlinear_arith);
                assert(i * (n * (n - 1)) + ((n - 1) * n) == (i + 1) * (n * (n - 1)))
                    by (nonlinear_arith);
            }
            i = i + 1;
        }
        proof {
            assert(n * (n * n) == n * n * n) by (nonlinear_arith);
            assert((n as int) * ((n as int) * ((n as int) - 1)) == (n as int) * (n as int) * ((
            n as int) - 1)) by (nonlinear_arith);
        }
        let counts = OperationCount { mul_nonzero: mn, mul_zero: mz, add_nonzero: an, add_zero: az };
        (res, counts)
    }

    /// Element-wise addition with every scalar addition tallied as
    /// zero-involving or non-zero; the totals are `n * n` additions.
    pub fn add_with_count(&self, m: &Matrix) -> (r: (Matrix, OperationCount))
        requires
            self.wf(),
            m.wf(),
            self.n() == m.n(),
        ensures
            r.0.wf(),
            r.0.n() == self.n(),
            forall|i: int, j: int|
                0 <= i < self.n() && 0 <= j < self.n()
                    ==> r.0.at(i, j) == self.at(i, j) + m.at(i, j),
            r.1.mul_zero == 0,
            r.1.mul_nonzero == 0,
            r.1.add_zero == ew_zero_total(*self, *m),
            r.1.add_zero + r.1.add_nonzero == self.n() * self.n(),
    {
        let (res, counts) = self.ew_with_count(m, false);
        (res, counts)
    }

    /// Element-wise subtraction with every scalar subtraction tallied as
    /// zero-involving or non-zero; the totals are `n * n` subtractions.
    pub fn sub_with_count(&self, m: &Matrix) -> (r: (Matrix, OperationCount))
        requires
            self.wf(),
            m.wf(),
            self.n() == m.n(),
        ensures
            r.0.wf(),
            r.0.n() == self.n(),
            forall|i: int, j: int|
                0 <= i < self.n() && 0 <= j < self.n()
                    ==> r.0.at(i, j) == self.at(i, j) - m.at(i, j),
            r.1.mul_zero == 0,
            r.1.mul_nonzero == 0,
            r.1.add_zero == ew_zero_total(*self, *m),
            r.1.add_zero + r.1.add_nonzero == self.n() * self.n(),
    {
        let (res, counts) = self.ew_with_count(m, true);
        (res, counts)
    }

    /// The shared tallying element-wise pass: adds when `subtract` is false,
    /// subtracts when it is true; the classification looks only at the
    /// operands, so it is the same either way.
    fn ew_with_count(&self, m: &Matrix, subtract: bool) -> (r: (Matrix, OperationCount))
        requires
            self.wf(),
            m.wf(),
            self.n() == m.n(),
        ensures
            r.0.wf(),
            r.0.n() == self.n(),
            forall|i: int, j: int|
                0 <= i < self.n() && 0 <= j < self.n()
                    ==> r.0.at(i, j) == if subtract {
                        self.at(i, j) - m.at(i, j)
                    } else {
                        self.at(i, j) + m.at(i, j)
                    },
            r.1.mul_zero == 0,
            r.1.mul_nonzero == 0,
            r.1.add_zero == ew_zero_total(*self, *m),
            r.1.add_zero + r.1.add_nonzero == self.n() * self.n(),
    {
        broadcast use crate::matrix::lemma_n_bound, crate::matrix::lemma_wf_dim_bound;

        let n = self.dim();
        let mut res = Matrix::zero_filled(n);
        let mut az: u128 = 0;
        let mut an: u128 = 0;
        let mut i: usize = 0;
        while i < n
            invariant
                i <= n,
                self.wf(),
                m.wf(),
                self.n() == n,
                m.n() == n,
                n * n <= usize::MAX,
                res.wf(),
                res.n() == n,
                forall|r2: int, c: int|
                    0 <= r2 < i && 0 <= c < n
                        ==> #[trigger] res.at(r2, c) == if subtract {
                            self.at(r2, c) - m.at(r2, c)
                        } else {
                            self.at(r2, c) + m.at(r2, c)
                        },
                az == ew_zero_i(*self, *m, i as int),
                az + an == i * n,
            decreases n - i,
        {
            let mut j: usize = 0;
            while j < n
                invariant
                    i < n,
                    j <= n,
                    self.wf(),
                    m.wf(),
                    self.n() == n,
                    m.n() == n,
                    n * n <= usize::MAX,
                    res.wf(),
                    res.n() == n,
                    forall|r2: int, c: int|
                        0 <= r2 < i && 0 <= c < n
                            ==> #[trigger] res.at(r2, c) == if subtract {
                                self.at(r2, c) - m.at(r2, c)
                            } else {
                                self.at(r2, c) + m.at(r2, c)
                            },
                    forall|c: int|
                        0 <= c < j
                            ==> #[trigger] res.at(i as int, c) == if subtract {
                                self.at(i as int, c) - m.at(i as int, c)
                            } else {
                                self.at(i as int, c) + m.at(i as int, c)
                            },
                    az == ew_zero_i(*self, *m, i as int) + ew_zero_j(*self, *m, i as int, j as int),
                    az + an == i * n + j,
                decreases n - j,
            {
                proof {
                    crate::matrix::lemma_flat_index_bounds(n as int, i as int, j as int);
                }
                let a = self.get_el(i, j);
                let b = m.get_el(i, j);
                if big_is_zero(&a) || big_is_zero(&b) {
                    az = az + 1;
                } else {
                    an = an + 1;
                }
                let v = if subtract {
                    big_sub(&a, &b)
                } else {
                    big_add(&a, &b)
                };
                res.set_el(i, j, v);
                j = j + 1;
            }
            proof {
                assert(((i as int) + 1) * n == (i as int) * n + n) by (nonlinear_arith);
            }
            i = i + 1;
        }
        let counts = OperationCount { mul_nonzero: 0, mul_zero: 0, add_nonzero: an, add_zero: az };
        (res, counts)
    }
}

} // verus!
