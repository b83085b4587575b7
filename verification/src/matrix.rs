//! The dense square matrix container and the classical element-wise and
//! triple-loop operations on it.

use vstd::prelude::*;
use vstd::pervasive::VecAdditionalExecFns;
use crate::scalar::{
    big_value, big_zero, big_from_i64, big_clone, big_add, big_sub, big_mul, big_eq,
    big_random_range, fresh_rng,
};
use crate::sums::sum_of;
use num_bigint::BigInt;

verus! {

/// The errors the matrix operations report: operand dimensions that disagree,
/// an element access outside the declared bounds, or a requested size that is
/// unusable.
#[derive(Clone, Copy, Debug, PartialEq, Eq, Structural)]
pub enum MatrixError {
    DimensionMismatch,
    IndexOutOfBounds,
    InvalidDimension,
}

/// A dense square matrix of arbitrary-precision integers, stored row-major:
/// the element in row `i`, column `j` sits at flat index `i * n + j`.
#[derive(Debug)]
pub struct Matrix {
    els: Vec<BigInt>,
    size: (usize, usize),
}

impl Matrix {
    /// The dimension of the (square) matrix.
    pub closed spec fn n(&self) -> int {
        self.size.0 as int
    }

    /// Well-formed: square, with a backing buffer of exactly `n * n` elements.
    pub closed spec fn wf(&self) -> bool {
        &&& self.size.1 == self.size.0
        &&& self.els@.len() == self.size.0 * self.size.0
        &&& self.size.0 * self.size.0 <= usize::MAX
    }

    /// The mathematical value of the element in row `i`, column `j`.
    pub closed spec fn at(&self, i: int, j: int) -> int {
        big_value(self.els@[i * self.n() + j])
    }
}

/// The dimension is a machine integer.
pub broadcast proof fn lemma_n_bound(m: Matrix)
    ensures
        0 <= #[trigger] m.n() <= usize::MAX,
{
}

/// A well-formed matrix's element count fits in a machine integer.
pub broadcast proof fn lemma_wf_dim_bound(m: Matrix)
    ensures
        #[trigger] m.wf() ==> m.n() * m.n() <= usize::MAX,
{
}

/// Row-major flat indices stay inside the buffer.
pub proof fn lemma_flat_index_bounds(n: int, i: int, j: int)
    by (nonlinear_arith)
    requires
        0 <= i < n,
        0 <= j < n,
    ensures
        0 <= i * n + j < n * n,
{
}

/// Row-major flat indexing is injective on the index square.
pub proof fn lemma_flat_index_injective(n: int, i: int, j: int, r: int, c: int)
    by (nonlinear_arith)
    requires
        0 <= i < n,
        0 <= j < n,
        0 <= r < n,
        0 <= c < n,
        i * n + j == r * n + c,
    ensures
        i == r && j == c,
{
}

/// The dot product of row `i` of `a` with column `j` of `b`, over the first
/// `t` index positions.
pub open spec fn dot(a: Matrix, b: Matrix, i: int, j: int, t: int) -> int
    decreases t,
{
    if t <= 0 {
        0
    } else {
        dot(a, b, i, j, t - 1) + a.at(i, t - 1) * b.at(t - 1, j)
    }
}

/// Element `(i, j)` of the matrix product `a * b`:
/// the full dot product of row `i` of `a` with column `j` of `b`.
pub open spec fn prod_entry(a: Matrix, b: Matrix, i: int, j: int) -> int {
    dot(a, b, i, j, a.n())
}

/// `dot` is `sum_of` applied to any function that matches the pointwise
/// products on the summed range.
pub proof fn lemma_dot_is_sum(a: Matrix, b: Matrix, i: int, j: int, f: spec_fn(int) -> int, t: int)
    requires
        forall|k: int| 0 <= k < t ==> #[trigger] f(k) == a.at(i, k) * b.at(k, j),
    ensures
        dot(a, b, i, j, t) == sum_of(f, t),
    decreases t,
{
    if t > 0 {
        lemma_dot_is_sum(a, b, i, j, f, t - 1);
    }
}

/// Two well-formed matrices of equal dimension with pairwise equal elements.
pub open spec fn matrix_eq(a: Matrix, b: Matrix) -> bool {
    &&& a.n() == b.n()
    &&& forall|i: int, j: int|
        0 <= i < a.n() && 0 <= j < a.n() ==> a.at(i, j) == b.at(i, j)
}

impl Matrix {
    /// The `n * n` matrix whose elements are all zero.
    pub fn zero_filled(n: usize) -> (res: Matrix)
        requires
            n * n <= usize::MAX,
        ensures
            res.wf(),
            res.n() == n,
            forall|i: int, j: int| 0 <= i < n && 0 <= j < n ==> res.at(i, j) == 0,
    {
        let total = n * n;
        let mut els: Vec<BigInt> = Vec::new();
        let mut k: usize = 0;
        while k < total
            invariant
                k <= total,
                els@.len() == k,
                forall|t: int| 0 <= t < k ==> big_value(#[trigger] els@[t]) == 0,
            decreases total - k,
        {
            els.push(big_zero());
            k = k + 1;
        }
        let res = Matrix { els, size: (n, n) };
        proof {
            assert forall|i: int, j: int| 0 <= i < n && 0 <= j < n implies res.at(i, j) == 0 by {
                lemma_flat_index_bounds(n as int, i, j);
            }
        }
        res
    }

    /// A clone of the element in row `i`, column `j`.
    pub fn get_el(&self, i: usize, j: usize) -> (r: BigInt)
        requires
            self.wf(),
            i < self.n(),
            j < self.n(),
        ensures
            big_value(r) == self.at(i as int, j as int),
    {
        proof {
            lemma_flat_index_bounds(self.n(), i as int, j as int);
        }
        let idx = i * self.size.0 + j;
        big_clone(&self.els[idx])
    }

    /// Replaces the element in row `i`, column `j`; every other element keeps
    /// its value.
    pub fn set_el(&mut self, i: usize, j: usize, value: BigInt)
        requires
            old(self).wf(),
            i < old(self).n(),
            j < old(self).n(),
        ensures
            final(self).wf(),
            final(self).n() == old(self).n(),
            final(self).at(i as int, j as int) == big_value(value),
            forall|r: int, c: int|
                0 <= r < old(self).n() && 0 <= c < old(self).n() && !(r == i && c == j)
                    ==> final(self).at(r, c) == old(self).at(r, c),
    {
        proof {
            lemma_flat_index_bounds(self.n(), i as int, j as int);
        }
        let idx = i * self.size.0 + j;
        self.els.set(idx, value);
        proof {
            let n = self.n();
            assert forall|r: int, c: int|
                0 <= r < n && 0 <= c < n && !(r == i && c == j)
                    implies self.at(r, c) == old(self).at(r, c) by {
                lemma_flat_index_bounds(n, r, c);
                if r * n + c == i as int * n + j as int {
                    lemma_flat_index_injective(n, i as int, j as int, r, c);
                }
            }
        }
    }
    /// The dimension of the (square) matrix, as a machine integer.
    pub fn dim(&self) -> (r: usize)
        ensures
            r == self.n(),
    {
        self.size.0
    }

    /// The element-wise sum of two matrices of equal dimension.
    pub fn add(&self, m: &Matrix) -> (res: Matrix)
        requires
            self.wf(),
            m.wf(),
            self.n() == m.n(),
        ensures
            res.wf(),
            res.n() == self.n(),
            forall|i: int, j: int|
                0 <= i < self.n() && 0 <= j < self.n()
                    ==> res.at(i, j) == self.at(i, j) + m.at(i, j),
    {
        let n = self.size.0;
        let mut res = Matrix::zero_filled(n);
        let mut i: usize = 0;
        while i < n
            invariant
                i <= n,
                self.wf(),
                m.wf(),
                self.n() == n,
                m.n() == n,
                res.wf(),
                res.n() == n,
                forall|r: int, c: int|
                    0 <= r < i && 0 <= c < n
                        ==> #[trigger] res.at(r, c) == self.at(r, c) + m.at(r, c),
            decreases n - i,
        {
            let mut j: usize = 0;
            while j < n
                invariant
                    i < n,
                    j <= n,
                    self.wf(),
                    m.wf(),
                    self.n() == n,
                    m.n() == n,
                    res.wf(),
                    res.n() == n,
                    forall|r: int, c: int|
                        0 <= r < i && 0 <= c < n
                            ==> #[trigger] res.at(r, c) == self.at(r, c) + m.at(r, c),
                    forall|c: int|
                        0 <= c < j
                            ==> #[trigger] res.at(i as int, c) == self.at(i as int, c) + m.at(i as int, c),
                decreases n - j,
            {
                let a = self.get_el(i, j);
                let b = m.get_el(i, j);
                res.set_el(i, j, big_add(&a, &b));
                j = j + 1;
            }
            i = i + 1;
        }
        res
    }

    /// The element-wise difference of two matrices of equal dimension.
    pub fn sub(&self, m: &Matrix) -> (res: Matrix)
        requires
            self.wf(),
            m.wf(),
            self.n() == m.n(),
        ensures
            res.wf(),
            res.n() == self.n(),
            forall|i: int, j: int|
                0 <= i < self.n() && 0 <= j < self.n()
                    ==> res.at(i, j) == self.at(i, j) - m.at(i, j),
    {
        let n = self.size.0;
        let mut res = Matrix::zero_filled(n);
        let mut i: usize = 0;
        while i < n
            invariant
                i <= n,
                self.wf(),
                m.wf(),
                self.n() == n,
                m.n() == n,
                res.wf(),
                res.n() == n,
                forall|r: int, c: int|
                    0 <= r < i && 0 <= c < n
                        ==> #[trigger] res.at(r, c) == self.at(r, c) - m.at(r, c),
            decreases n - i,
        {
            let mut j: usize = 0;
            while j < n
                invariant
                    i < n,
                    j <= n,
                    self.wf(),
                    m.wf(),
                    self.n() == n,
                    m.n() == n,
                    res.wf(),
                    res.n() == n,
                    forall|r: int, c: int|
                        0 <= r < i && 0 <= c < n
                            ==> #[trigger] res.at(r, c) == self.at(r, c) - m.at(r, c),
                    forall|c: int|
                        0 <= c < j
                            ==> #[trigger] res.at(i as int, c) == self.at(i as int, c) - m.at(i as int, c),
                decreases n - j,
            {
                let a = self.get_el(i, j);
                let b = m.get_el(i, j);
                res.set_el(i, j, big_sub(&a, &b));
                j = j + 1;
            }
            i = i + 1;
        }
        res
    }

    /// Classical triple-loop multiplication: element `(i, j)` of the result is
    /// the dot product of row `i` of `self` with column `j` of `m`, accumulated
    /// over `k` in index order.
    pub fn multiply(&self, m: &Matrix) -> (res: Matrix)
        requires
            self.wf(),
            m.wf(),
            self.n() == m.n(),
        ensures
            res.wf(),
            res.n() == self.n(),
            forall|i: int, j: int|
                0 <= i < self.n() && 0 <= j < self.n()
                    ==> res.at(i, j) == prod_entry(*self, *m, i, j),
    {
        let n = self.size.0;
        let mut res = Matrix::zero_filled(n);
        let mut i: usize = 0;
        while i < n
            invariant
                i <= n,
                self.wf(),
                m.wf(),
                self.n() == n,
                m.n() == n,
                res.wf(),
                res.n() == n,
                forall|r: int, c: int|
                    0 <= r < i && 0 <= c < n
                        ==> #[trigger] res.at(r, c) == dot(*self, *m, r, c, n as int),
                forall|r: int, c: int|
                    i <= r < n && 0 <= c < n ==> #[trigger] res.at(r, c) == 0,
            decreases n - i,
        {
            let mut k: usize = 0;
            while k < n
                invariant
                    i < n,
                    k <= n,
                    self.wf(),
                    m.wf(),
                    self.n() == n,
                    m.n() == n,
                    res.wf(),
                    res.n() == n,
                    forall|r: int, c: int|
                        0 <= r < i && 0 <= c < n
                            ==> #[trigger] res.at(r, c) == dot(*self, *m, r, c, n as int),
                    forall|c: int|
                        0 <= c < n
                            ==> #[trigger] res.at(i as int, c) == dot(*self, *m, i as int, c, k as int),
                    forall|r: int, c: int|
                        i < r < n && 0 <= c < n ==> #[trigger] res.at(r, c) == 0,
                decreases n - k,
            {
                let mut j: usize = 0;
                while j < n
                    invariant
                        i < n,
                        k < n,
                        j <= n,
                        self.wf(),
                        m.wf(),
                        self.n() == n,
                        m.n() == n,
                        res.wf(),
                        res.n() == n,
                        forall|r: int, c: int|
                            0 <= r < i && 0 <= c < n
                                ==> #[trigger] res.at(r, c) == dot(*self, *m, r, c, n as int),
                        forall|c: int|
                            0 <= c < j
                                ==> #[trigger] res.at(i as int, c) == dot(*self, *m, i as int, c, k as int + 1),
                        forall|c: int|
                            j <= c < n
                                ==> #[trigger] res.at(i as int, c) == dot(*self, *m, i as int, c, k as int),
                        forall|r: int, c: int|
                            i < r < n && 0 <= c < n ==> #[trigger] res.at(r, c) == 0,
                    decreases n - j,
                {
                    let cur = res.get_el(i, j);
                    let a = self.get_el(i, k);
                    let b = m.get_el(k, j);
                    let term = big_mul(&a, &b);
                    res.set_el(i, j, big_add(&cur, &term));
                    j = j + 1;
                }
                k = k + 1;
            }
            i = i + 1;
        }
        res
    }

    /// True exactly when the two matrices have the same dimension and all
    /// elements are pairwise equal.
    pub fn is_equal(&self, other: &Matrix) -> (r: bool)
        requires
            self.wf(),
            other.wf(),
        ensures
            r == matrix_eq(*self, *other),
    {
        let n = self.size.0;
        if n != other.size.0 {
            return false;
        }
        let mut i: usize = 0;
        while i < n
            invariant
                i <= n,
                self.wf(),
                other.wf(),
                self.n() == n,
                other.n() == n,
                forall|r: int, c: int|
                    0 <= r < i && 0 <= c < n ==> self.at(r, c) == #[trigger] other.at(r, c),
            decreases n - i,
        {
            let mut j: usize = 0;
            while j < n
                invariant
                    i < n,
                    j <= n,
                    self.wf(),
                    other.wf(),
                    self.n() == n,
                    other.n() == n,
                    forall|r: int, c: int|
                        0 <= r < i && 0 <= c < n ==> self.at(r, c) == #[trigger] other.at(r, c),
                    forall|c: int|
                        0 <= c < j ==> self.at(i as int, c) == #[trigger] other.at(i as int, c),
                decreases n - j,
            {
                let a = self.get_el(i, j);
                let b = other.get_el(i, j);
                if !big_eq(&a, &b) {
                    return false;
                }
                j = j + 1;
            }
            i = i + 1;
        }
        true
    }

    /// An `n * n` matrix whose elements are the given machine integers, in
    /// row-major order.
    pub fn from_values(n: usize, vals: &Vec<i64>) -> (res: Matrix)
        requires
            n * n <= usize::MAX,
            vals@.len() == n * n,
        ensures
            res.wf(),
            res.n() == n,
            forall|i: int, j: int|
                0 <= i < n && 0 <= j < n ==> res.at(i, j) == vals@[i * n + j] as int,
    {
        let total = n * n;
        let mut els: Vec<BigInt> = Vec::new();
        let mut k: usize = 0;
        while k < total
            invariant
                k <= total,
                total == n * n,
                vals@.len() == total,
                els@.len() == k,
                forall|t: int| 0 <= t < k ==> big_value(#[trigger] els@[t]) == vals@[t] as int,
            decreases total - k,
        {
            els.push(big_from_i64(vals[k]));
            k = k + 1;
        }
        let res = Matrix { els, size: (n, n) };
        proof {
            assert forall|i: int, j: int|
                0 <= i < n && 0 <= j < n implies res.at(i, j) == vals@[i * n + j] as int by {
                lemma_flat_index_bounds(n as int, i, j);
            }
        }
        res
    }

    /// The `n * n` identity matrix: ones on the diagonal, zeros elsewhere.
    pub fn identity(n: usize) -> (res: Matrix)
        requires
            n * n <= usize::MAX,
        ensures
            res.wf(),
            res.n() == n,
            forall|i: int, j: int|
                0 <= i < n && 0 <= j < n
                    ==> res.at(i, j) == if i == j { 1int } else { 0int },
    {
        let mut res = Matrix::zero_filled(n);
        let mut i: usize = 0;
        while i < n
            invariant
                i <= n,
                res.wf(),
                res.n() == n,
                forall|r: int, c: int|
                    0 <= r < n && 0 <= c < n
                        ==> #[trigger] res.at(r, c) == if r == c && r < i { 1int } else { 0int },
            decreases n - i,
        {
            res.set_el(i, i, big_from_i64(1));
            i = i + 1;
        }
        res
    }

    /// An `n * n` matrix with every element drawn from the inclusive range
    /// `[values_range.0, values_range.1]`.  Nothing beyond the bounds is
    /// promised of the drawn values.
    pub fn new(n: usize, values_range: &(BigInt, BigInt)) -> (res: Matrix)
        requires
            n >= 1,
            n * n <= usize::MAX,
            big_value(values_range.0) <= big_value(values_range.1),
        ensures
            res.wf(),
            res.n() == n,
            forall|i: int, j: int|
                0 <= i < n && 0 <= j < n
                    ==> big_value(values_range.0) <= #[trigger] res.at(i, j)
                        <= big_value(values_range.1),
    {
        let total = n * n;
        let one = big_from_i64(1);
        let upper = big_add(&values_range.1, &one);
        let mut rng = fresh_rng();
        let mut els: Vec<BigInt> = Vec::new();
        let mut k: usize = 0;
        while k < total
            invariant
                k <= total,
                els@.len() == k,
                big_value(values_range.0) <= big_value(values_range.1),
                big_value(upper) == big_value(values_range.1) + 1,
                forall|t: int|
                    0 <= t < k
                        ==> big_value(values_range.0) <= big_value(#[trigger] els@[t])
                            <= big_value(values_range.1),
            decreases total - k,
        {
            let v = big_random_range(&mut rng, &values_range.0, &upper);
            els.push(v);
            k = k + 1;
        }
        let res = Matrix { els, size: (n, n) };
        proof {
            assert forall|i: int, j: int|
                0 <= i < n && 0 <= j < n
                    implies big_value(values_range.0) <= #[trigger] res.at(i, j)
                        <= big_value(values_range.1) by {
                lemma_flat_index_bounds(n as int, i, j);
            }
        }
        res
    }

    /// Bounds-checked element read.
    pub fn get(&self, i: usize, j: usize) -> (r: Result<BigInt, MatrixError>)
        requires
            self.wf(),
        ensures
            match r {
                Ok(v) => i < self.n() && j < self.n() && big_value(v) == self.at(i as int, j as int),
                Err(e) => e == MatrixError::IndexOutOfBounds && (i >= self.n() || j >= self.n()),
            },
    {
        if i < self.size.0 && j < self.size.0 {
            Ok(self.get_el(i, j))
        } else {
            Err(MatrixError::IndexOutOfBounds)
        }
    }

    /// Bounds-checked element write.
    pub fn set(&mut self, i: usize, j: usize, value: BigInt) -> (r: Result<(), MatrixError>)
        requires
            old(self).wf(),
        ensures
            final(self).wf(),
            final(self).n() == old(self).n(),
            match r {
                Ok(()) => {
                    &&& i < old(self).n()
                    &&& j < old(self).n()
                    &&& final(self).at(i as int, j as int) == big_value(value)
                    &&& forall|r2: int, c2: int|
                        0 <= r2 < old(self).n() && 0 <= c2 < old(self).n() && !(r2 == i && c2 == j)
                            ==> final(self).at(r2, c2) == old(self).at(r2, c2)
                },
                Err(e) => {
                    &&& e == MatrixError::IndexOutOfBounds
                    &&& (i >= old(self).n() || j >= old(self).n())
                    &&& *final(self) == *old(self)
                },
            },
    {
        if i < self.size.0 && j < self.size.0 {
            self.set_el(i, j, value);
            Ok(())
        } else {
            Err(MatrixError::IndexOutOfBounds)
        }
    }
}

} // verus!
