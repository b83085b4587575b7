//! Strassen's divide-and-conquer multiplication engine: quadrant splitting,
//! the seven recursive products, the power-of-two padding wrapper, and the
//! proof that every entry of the result equals the classical product entry.

use vstd::prelude::*;
use crate::matrix::{Matrix, dot, prod_entry, lemma_dot_is_sum};
use crate::sums::{
    sum_of, lemma_sum_of_congruent, lemma_sum_of_add, lemma_sum_of_sub, lemma_sum_of_split,
    lemma_sum_of_zero,
};

verus! {

/// `n` is a positive power of two.
pub open spec fn is_pow2(n: int) -> bool
    decreases n,
{
    if n <= 0 {
        false
    } else if n == 1 {
        true
    } else {
        n % 2 == 0 && is_pow2(n / 2)
    }
}

/// A full dot product over `2 * h` index positions splits into the two
/// half-range sums `s1` (low indices) and `s2` (high indices re-indexed).
proof fn lemma_dot_split_halves(
    a: Matrix,
    b: Matrix,
    i: int,
    j: int,
    h: int,
    s1: spec_fn(int) -> int,
    s2: spec_fn(int) -> int,
)
    requires
        h >= 0,
        forall|k: int| 0 <= k < h ==> #[trigger] s1(k) == a.at(i, k) * b.at(k, j),
        forall|k: int| 0 <= k < h ==> #[trigger] s2(k) == a.at(i, k + h) * b.at(k + h, j),
    ensures
        dot(a, b, i, j, 2 * h) == sum_of(s1, h) + sum_of(s2, h),
{
    let f = |k: int| a.at(i, k) * b.at(k, j);
    lemma_dot_is_sum(a, b, i, j, f, 2 * h);
    lemma_sum_of_split(f, h, h, s2);
    lemma_sum_of_congruent(f, s1, h);
}

/// The first Strassen combination: for a row `i` and column `j` of the
/// top-left quadrant, `P1 + P4 - P5 + P7` equals the full product entry.
#[verifier::rlimit(50)]
proof fn lemma_c11_entry(
    a: Matrix,
    b: Matrix,
    h: int,
    i: int,
    j: int,
    ar1: Matrix,
    br1: Matrix,
    ar4: Matrix,
    br4: Matrix,
    ar5: Matrix,
    br5: Matrix,
    ar7: Matrix,
    br7: Matrix,
)
    requires
        h >= 1,
        0 <= i < h,
        0 <= j < h,
        forall|k: int| 0 <= k < h ==> #[trigger] ar1.at(i, k) == a.at(i, k) + a.at(i + h, k + h),
        forall|k: int| 0 <= k < h ==> #[trigger] br1.at(k, j) == b.at(k, j) + b.at(k + h, j + h),
        forall|k: int| 0 <= k < h ==> #[trigger] ar4.at(i, k) == a.at(i + h, k + h),
        forall|k: int| 0 <= k < h ==> #[trigger] br4.at(k, j) == b.at(k + h, j) - b.at(k, j),
        forall|k: int| 0 <= k < h ==> #[trigger] ar5.at(i, k) == a.at(i, k) + a.at(i, k + h),
        forall|k: int| 0 <= k < h ==> #[trigger] br5.at(k, j) == b.at(k + h, j + h),
        forall|k: int| 0 <= k < h ==> #[trigger] ar7.at(i, k) == a.at(i, k + h) - a.at(i + h, k + h),
        forall|k: int| 0 <= k < h ==> #[trigger] br7.at(k, j) == b.at(k + h, j) + b.at(k + h, j + h),
    ensures
        dot(ar1, br1, i, j, h) + dot(ar4, br4, i, j, h) - dot(ar5, br5, i, j, h)
            + dot(ar7, br7, i, j, h) == dot(a, b, i, j, 2 * h),
{
    let f1 = |k: int| (a.at(i, k) + a.at(i + h, k + h)) * (b.at(k, j) + b.at(k + h, j + h));
    let f4 = |k: int| a.at(i + h, k + h) * (b.at(k + h, j) - b.at(k, j));
    let f5 = |k: int| (a.at(i, k) + a.at(i, k + h)) * b.at(k + h, j + h);
    let f7 = |k: int| (a.at(i, k + h) - a.at(i + h, k + h)) * (b.at(k + h, j) + b.at(k + h, j + h));
    lemma_dot_is_sum(ar1, br1, i, j, f1, h);
    lemma_dot_is_sum(ar4, br4, i, j, f4, h);
    lemma_dot_is_sum(ar5, br5, i, j, f5, h);
    lemma_dot_is_sum(ar7, br7, i, j, f7, h);
    let g14 = |k: int| f1(k) + f4(k);
    lemma_sum_of_add(f1, f4, g14, h);
    let g145 = |k: int| g14(k) - f5(k);
    lemma_sum_of_sub(g14, f5, g145, h);
    let g = |k: int| g145(k) + f7(k);
    lemma_sum_of_add(g145, f7, g, h);
    let s1 = |k: int| a.at(i, k) * b.at(k, j);
    let s2 = |k: int| a.at(i, k + h) * b.at(k + h, j);
    let s12 = |k: int| s1(k) + s2(k);
    assert forall|k: int| 0 <= k < h implies #[trigger] g(k) == s12(k) by {
        let x11 = a.at(i, k);
        let x12 = a.at(i, k + h);
        let x22 = a.at(i + h, k + h);
        let y11 = b.at(k, j);
        let y21 = b.at(k + h, j);
        let y22 = b.at(k + h, j + h);
        assert((x11 + x22) * (y11 + y22) + x22 * (y21 - y11) - (x11 + x12) * y22 + (x12 - x22)
            * (y21 + y22) == x11 * y11 + x12 * y21) by (nonlinear_arith);
    }
    lemma_sum_of_congruent(g, s12, h);
    lemma_sum_of_add(s1, s2, s12, h);
    lemma_dot_split_halves(a, b, i, j, h, s1, s2);
}

/// The second Strassen combination: `P3 + P5` is the product entry in the
/// top-right quadrant, at row `i`, column `j + h`.
proof fn lemma_c12_entry(
    a: Matrix,
    b: Matrix,
    h: int,
    i: int,
    j: int,
    ar3: Matrix,
    br3: Matrix,
    ar5: Matrix,
    br5: Matrix,
)
    requires
        h >= 1,
        0 <= i < h,
        0 <= j < h,
        forall|k: int| 0 <= k < h ==> #[trigger] ar3.at(i, k) == a.at(i, k),
        forall|k: int| 0 <= k < h ==> #[trigger] br3.at(k, j) == b.at(k, j + h) - b.at(k + h, j + h),
        forall|k: int| 0 <= k < h ==> #[trigger] ar5.at(i, k) == a.at(i, k) + a.at(i, k + h),
        forall|k: int| 0 <= k < h ==> #[trigger] br5.at(k, j) == b.at(k + h, j + h),
    ensures
        dot(ar3, br3, i, j, h) + dot(ar5, br5, i, j, h) == dot(a, b, i, j + h, 2 * h),
{
    let f3 = |k: int| a.at(i, k) * (b.at(k, j + h) - b.at(k + h, j + h));
    let f5 = |k: int| (a.at(i, k) + a.at(i, k + h)) * b.at(k + h, j + h);
    lemma_dot_is_sum(ar3, br3, i, j, f3, h);
    lemma_dot_is_sum(ar5, br5, i, j, f5, h);
    let g = |k: int| f3(k) + f5(k);
    lemma_sum_of_add(f3, f5, g, h);
    let s1 = |k: int| a.at(i, k) * b.at(k, j + h);
    let s2 = |k: int| a.at(i, k + h) * b.at(k + h, j + h);
    let s12 = |k: int| s1(k) + s2(k);
    assert forall|k: int| 0 <= k < h implies #[trigger] g(k) == s12(k) by {
        let x11 = a.at(i, k);
        let x12 = a.at(i, k + h);
        let y12 = b.at(k, j + h);
        let y22 = b.at(k + h, j + h);
        assert(x11 * (y12 - y22) + (x11 + x12) * y22 == x11 * y12 + x12 * y22)
            by (nonlinear_arith);
    }
    lemma_sum_of_congruent(g, s12, h);
    lemma_sum_of_add(s1, s2, s12, h);
    lemma_dot_split_halves(a, b, i, j + h, h, s1, s2);
}

/// The third Strassen combination: `P2 + P4` is the product entry in the
/// bottom-left quadrant, at row `i + h`, column `j`.
proof fn lemma_c21_entry(
    a: Matrix,
    b: Matrix,
    h: int,
    i: int,
    j: int,
    ar2: Matrix,
    br2: Matrix,
    ar4: Matrix,
    br4: Matrix,
)
    requires
        h >= 1,
        0 <= i < h,
        0 <= j < h,
        forall|k: int| 0 <= k < h ==> #[trigger] ar2.at(i, k) == a.at(i + h, k) + a.at(i + h, k + h),
        forall|k: int| 0 <= k < h ==> #[trigger] br2.at(k, j) == b.at(k, j),
        forall|k: int| 0 <= k < h ==> #[trigger] ar4.at(i, k) == a.at(i + h, k + h),
        forall|k: int| 0 <= k < h ==> #[trigger] br4.at(k, j) == b.at(k + h, j) - b.at(k, j),
    ensures
        dot(ar2, br2, i, j, h) + dot(ar4, br4, i, j, h) == dot(a, b, i + h, j, 2 * h),
{
    let f2 = |k: int| (a.at(i + h, k) + a.at(i + h, k + h)) * b.at(k, j);
    let f4 = |k: int| a.at(i + h, k + h) * (b.at(k + h, j) - b.at(k, j));
    lemma_dot_is_sum(ar2, br2, i, j, f2, h);
    lemma_dot_is_sum(ar4, br4, i, j, f4, h);
    let g = |k: int| f2(k) + f4(k);
    lemma_sum_of_add(f2, f4, g, h);
    let s1 = |k: int| a.at(i + h, k) * b.at(k, j);
    let s2 = |k: int| a.at(i + h, k + h) * b.at(k + h, j);
    let s12 = |k: int| s1(k) + s2(k);
    assert forall|k: int| 0 <= k < h implies #[trigger] g(k) == s12(k) by {
        let x21 = a.at(i + h, k);
        let x22 = a.at(i + h, k + h);
        let y11 = b.at(k, j);
        let y21 = b.at(k + h, j);
        assert((x21 + x22) * y11 + x22 * (y21 - y11) == x21 * y11 + x22 * y21)
            by (nonlinear_arith);
    }
    lemma_sum_of_congruent(g, s12, h);
    lemma_sum_of_add(s1, s2, s12, h);
    lemma_dot_split_halves(a, b, i + h, j, h, s1, s2);
}

/// The fourth Strassen combination: `P1 + P3 + P6 - P2` is the product entry
/// in the bottom-right quadrant, at row `i + h`, column `j + h`.
#[verifier::rlimit(50)]
proof fn lemma_c22_entry(
    a: Matrix,
    b: Matrix,
    h: int,
    i: int,
    j: int,
    ar1: Matrix,
    br1: Matrix,
    ar2: Matrix,
    br2: Matrix,
    ar3: Matrix,
    br3: Matrix,
    ar6: Matrix,
    br6: Matrix,
)
    requires
        h >= 1,
        0 <= i < h,
        0 <= j < h,
        forall|k: int| 0 <= k < h ==> #[trigger] ar1.at(i, k) == a.at(i, k) + a.at(i + h, k + h),
        forall|k: int| 0 <= k < h ==> #[trigger] br1.at(k, j) == b.at(k, j) + b.at(k + h, j + h),
        forall|k: int| 0 <= k < h ==> #[trigger] ar2.at(i, k) == a.at(i + h, k) + a.at(i + h, k + h),
        forall|k: int| 0 <= k < h ==> #[trigger] br2.at(k, j) == b.at(k, j),
        forall|k: int| 0 <= k < h ==> #[trigger] ar3.at(i, k) == a.at(i, k),
        forall|k: int| 0 <= k < h ==> #[trigger] br3.at(k, j) == b.at(k, j + h) - b.at(k + h, j + h),
        forall|k: int| 0 <= k < h ==> #[trigger] ar6.at(i, k) == a.at(i + h, k) - a.at(i, k),
        forall|k: int| 0 <= k < h ==> #[trigger] br6.at(k, j) == b.at(k, j) + b.at(k, j + h),
    ensures
        dot(ar1, br1, i, j, h) + dot(ar3, br3, i, j, h) + dot(ar6, br6, i, j, h)
            - dot(ar2, br2, i, j, h) == dot(a, b, i + h, j + h, 2 * h),
{
    let f1 = |k: int| (a.at(i, k) + a.at(i + h, k + h)) * (b.at(k, j) + b.at(k + h, j + h));
    let f2 = |k: int| (a.at(i + h, k) + a.at(i + h, k + h)) * b.at(k, j);
    let f3 = |k: int| a.at(i, k) * (b.at(k, j + h) - b.at(k + h, j + h));
    let f6 = |k: int| (a.at(i + h, k) - a.at(i, k)) * (b.at(k, j) + b.at(k, j + h));
    lemma_dot_is_sum(ar1, br1, i, j, f1, h);
    lemma_dot_is_sum(ar2, br2, i, j, f2, h);
    lemma_dot_is_sum(ar3, br3, i, j, f3, h);
    lemma_dot_is_sum(ar6, br6, i, j, f6, h);
    let g13 = |k: int| f1(k) + f3(k);
    lemma_sum_of_add(f1, f3, g13, h);
    let g136 = |k: int| g13(k) + f6(k);
    lemma_sum_of_add(g13, f6, g136, h);
    let g = |k: int| g136(k) - f2(k);
    lemma_sum_of_sub(g136, f2, g, h);
    let s1 = |k: int| a.at(i + h, k) * b.at(k, j + h);
    let s2 = |k: int| a.at(i + h, k + h) * b.at(k + h, j + h);
    let s12 = |k: int| s1(k) + s2(k);
    assert forall|k: int| 0 <= k < h implies #[trigger] g(k) == s12(k) by {
        let x11 = a.at(i, k);
        let x21 = a.at(i + h, k);
        let x22 = a.at(i + h, k + h);
        let y11 = b.at(k, j);
        let y12 = b.at(k, j + h);
        let y22 = b.at(k + h, j + h);
        assert((x11 + x22) * (y11 + y22) + x11 * (y12 - y22) + (x21 - x11) * (y11 + y12) - (x21
            + x22) * y11 == x21 * y12 + x22 * y22) by (nonlinear_arith);
    }
    lemma_sum_of_congruent(g, s12, h);
    lemma_sum_of_add(s1, s2, s12, h);
    lemma_dot_split_halves(a, b, i + h, j + h, h, s1, s2);
}

impl Matrix {
    /// A copy of the `h * h` sub-block whose top-left corner is `(r0, c0)`.
    pub fn sub_block(&self, r0: usize, c0: usize, h: usize) -> (res: Matrix)
        requires
            self.wf(),
            r0 + h <= self.n(),
            c0 + h <= self.n(),
        ensures
            res.wf(),
            res.n() == h,
            forall|r: int, c: int|
                0 <= r < h && 0 <= c < h
                    ==> #[trigger] res.at(r, c) == self.at(r0 + r, c0 + c),
    {
        broadcast use crate::matrix::lemma_n_bound, crate::matrix::lemma_wf_dim_bound;
        proof {
            assert((h as int) * (h as int) <= self.n() * self.n()) by (nonlinear_arith)
                requires 0 <= h <= self.n();
        }
        let mut res = Matrix::zero_filled(h);
        let mut r: usize = 0;
        while r < h
            invariant
                r <= h,
                self.wf(),
                self.n() <= usize::MAX,
                r0 + h <= self.n(),
                c0 + h <= self.n(),
                res.wf(),
                res.n() == h,
                forall|x: int, y: int|
                    0 <= x < r && 0 <= y < h
                        ==> #[trigger] res.at(x, y) == self.at(r0 + x, c0 + y),
            decreases h - r,
        {
            let mut c: usize = 0;
            while c < h
                invariant
                    r < h,
                    c <= h,
                    self.wf(),
                    self.n() <= usize::MAX,
                    r0 + h <= self.n(),
                    c0 + h <= self.n(),
                    res.wf(),
                    res.n() == h,
                    forall|x: int, y: int|
                        0 <= x < r && 0 <= y < h
                            ==> #[trigger] res.at(x, y) == self.at(r0 + x, c0 + y),
                    forall|y: int|
                        0 <= y < c
                            ==> #[trigger] res.at(r as int, y) == self.at(r0 + r, c0 + y),
                decreases h - c,
            {
                let v = self.get_el(r0 + r, c0 + c);
                res.set_el(r, c, v);
                c = c + 1;
            }
            r = r + 1;
        }
        res
    }

    /// Writes `src` into the sub-block whose top-left corner is `(r0, c0)`;
    /// every element outside that block keeps its value.
    pub fn place_block(&mut self, src: &Matrix, r0: usize, c0: usize)
        requires
            old(self).wf(),
            src.wf(),
            r0 + src.n() <= old(self).n(),
            c0 + src.n() <= old(self).n(),
        ensures
            final(self).wf(),
            final(self).n() == old(self).n(),
            forall|r: int, c: int|
                0 <= r < src.n() && 0 <= c < src.n()
                    ==> final(self).at(r0 + r, c0 + c) == #[trigger] src.at(r, c),
            forall|r: int, c: int|
                0 <= r < old(self).n() && 0 <= c < old(self).n()
                    && !(r0 <= r < r0 + src.n() && c0 <= c < c0 + src.n())
                    ==> #[trigger] final(self).at(r, c) == old(self).at(r, c),
    {
        broadcast use crate::matrix::lemma_n_bound, crate::matrix::lemma_wf_dim_bound;
        let h = src.dim();
        proof {
            assert(src.n() == h);
        }
        let mut r: usize = 0;
        while r < h
            invariant
                r <= h,
                src.wf(),
                src.n() == h,
                old(self).n() <= usize::MAX,
                r0 + h <= old(self).n(),
                c0 + h <= old(self).n(),
                self.wf(),
                self.n() == old(self).n(),
                forall|x: int, y: int|
                    0 <= x < r && 0 <= y < h
                        ==> self.at(r0 + x, c0 + y) == #[trigger] src.at(x, y),
                forall|x: int, y: int|
                    0 <= x < old(self).n() && 0 <= y < old(self).n()
                        && !(r0 <= x < r0 + h && c0 <= y < c0 + h)
                        ==> #[trigger] self.at(x, y) == old(self).at(x, y),
            decreases h - r,
        {
            let mut c: usize = 0;
            while c < h
                invariant
                    r < h,
                    c <= h,
                    src.wf(),
                    src.n() == h,
                    old(self).n() <= usize::MAX,
                    r0 + h <= old(self).n(),
                    c0 + h <= old(self).n(),
                    self.wf(),
                    self.n() == old(self).n(),
                    forall|x: int, y: int|
                        0 <= x < r && 0 <= y < h
                            ==> self.at(r0 + x, c0 + y) == #[trigger] src.at(x, y),
                    forall|y: int|
                        0 <= y < c
                            ==> self.at(r0 + r, c0 + y) == #[trigger] src.at(r as int, y),
                    forall|x: int, y: int|
                        0 <= x < old(self).n() && 0 <= y < old(self).n()
                            && !(r0 <= x < r0 + h && c0 <= y < c0 + h)
                            ==> #[trigger] self.at(x, y) == old(self).at(x, y),
                decreases h - c,
            {
                let v = src.get_el(r, c);
                self.set_el(r0 + r, c0 + c, v);
                c = c + 1;
            }
            r = r + 1;
        }
    }

    /// Strassen's recursion on a square matrix whose dimension is a power of
    /// two: classical multiplication at or below `base_case`, otherwise the
    /// seven-product decomposition on quadrants.  Every entry of the result is
    /// the classical product entry.
    pub fn strassen_recursion(&self, m: &Matrix, base_case: usize) -> (res: Matrix)
        requires
            self.wf(),
            m.wf(),
            self.n() == m.n(),
            is_pow2(self.n()),
            base_case >= 1,
        ensures
            res.wf(),
            res.n() == self.n(),
            forall|i: int, j: int|
                0 <= i < self.n() && 0 <= j < self.n()
                    ==> res.at(i, j) == prod_entry(*self, *m, i, j),
        decreases self.n(),
    {
        broadcast use crate::matrix::lemma_n_bound, crate::matrix::lemma_wf_dim_bound;
        let n = self.dim();
        if n <= base_case {
            self.multiply(m)
        } else {
            let h = n / 2;
            proof {
                assert(n >= 2);
                assert(is_pow2(n as int / 2) && n as int % 2 == 0);
                assert(h as int == n as int / 2);
                assert(2 * (h as int) == n as int);
            }
            let a11 = self.sub_block(0, 0, h);
            let a12 = self.sub_block(0, h, h);
            let a21 = self.sub_block(h, 0, h);
            let a22 = self.sub_block(h, h, h);
            let b11 = m.sub_block(0, 0, h);
            let b12 = m.sub_block(0, h, h);
            let b21 = m.sub_block(h, 0, h);
            let b22 = m.sub_block(h, h, h);

            let t1 = a11.add(&a22);
            let t2 = b11.add(&b22);
            let p1 = t1.strassen_recursion(&t2, base_case);

            let t3 = a21.add(&a22);
            let p2 = t3.strassen_recursion(&b11, base_case);

            let t4 = b12.sub(&b22);
            let p3 = a11.strassen_recursion(&t4, base_case);

            let t5 = b21.sub(&b11);
            let p4 = a22.strassen_recursion(&t5, base_case);

            let t6 = a11.add(&a12);
            let p5 = t6.strassen_recursion(&b22, base_case);

            let t7 = a21.sub(&a11);
            let t8 = b11.add(&b12);
            let p6 = t7.strassen_recursion(&t8, base_case);

            let t9 = a12.sub(&a22);
            let t10 = b21.add(&b22);
            let p7 = t9.strassen_recursion(&t10, base_case);

            let c12m = p3.add(&p5);
            let c21m = p2.add(&p4);

            let u1 = p1.add(&p4);
            let u2 = u1.add(&p7);
            let c11m = u2.sub(&p5);

            let u3 = p1.add(&p3);
            let u4 = u3.add(&p6);
            let c22m = u4.sub(&p2);

            let mut c = Matrix::zero_filled(n);
            c.place_block(&c11m, 0, 0);
            c.place_block(&c12m, 0, h);
            c.place_block(&c21m, h, 0);
            c.place_block(&c22m, h, h);

            proof {
                let hh = h as int;
                let aa = *self;
                let bb = *m;
                assert forall|i: int, j: int|
                    0 <= i < n && 0 <= j < n implies c.at(i, j) == prod_entry(aa, bb, i, j) by {
                    if i < hh && j < hh {
                        assert(c.at(i, j) == c11m.at(i, j));
                        lemma_c11_entry(aa, bb, hh, i, j, t1, t2, a22, t5, t6, b22, t9, t10);
                    } else if i < hh && j >= hh {
                        let jj = j - hh;
                        assert(c.at(i, j) == c12m.at(i, jj));
                        lemma_c12_entry(aa, bb, hh, i, jj, a11, t4, t6, b22);
                    } else if i >= hh && j < hh {
                        let ii = i - hh;
                        assert(c.at(i, j) == c21m.at(ii, j));
                        lemma_c21_entry(aa, bb, hh, ii, j, t3, b11, a22, t5);
                    } else {
                        let ii = i - hh;
                        let jj = j - hh;
                        assert(c.at(i, j) == c22m.at(ii, jj));
                        lemma_c22_entry(aa, bb, hh, ii, jj, t1, t2, t3, b11, a11, t4, t7, t8);
                    }
                }
            }
            c
        }
    }
}

/// The product entries of padded matrices agree with those of the originals
/// on the original index square: the padding rows and columns are zero, so
/// they contribute nothing to the dot products.
proof fn lemma_padding_entry(
    a: Matrix,
    b: Matrix,
    ap: Matrix,
    bp: Matrix,
    n: int,
    md: int,
    i: int,
    j: int,
)
    requires
        0 <= n <= md,
        0 <= i < n,
        0 <= j < n,
        a.n() == n,
        ap.n() == md,
        forall|r: int, c: int| 0 <= r < n && 0 <= c < n ==> #[trigger] ap.at(r, c) == a.at(r, c),
        forall|r: int, c: int| 0 <= r < n && 0 <= c < n ==> #[trigger] bp.at(r, c) == b.at(r, c),
        forall|r: int, c: int|
            0 <= r < md && 0 <= c < md && (r >= n || c >= n) ==> #[trigger] ap.at(r, c) == 0,
        forall|r: int, c: int|
            0 <= r < md && 0 <= c < md && (r >= n || c >= n) ==> #[trigger] bp.at(r, c) == 0,
    ensures
        prod_entry(ap, bp, i, j) == prod_entry(a, b, i, j),
{
    let f = |k: int| ap.at(i, k) * bp.at(k, j);
    lemma_dot_is_sum(ap, bp, i, j, f, md);
    let fs = |k: int| f(n + k);
    lemma_sum_of_split(f, n, md - n, fs);
    assert forall|k: int| 0 <= k < md - n implies #[trigger] fs(k) == 0 by {
        assert(bp.at(n + k, j) == 0);
    }
    lemma_sum_of_zero(fs, md - n);
    let g = |k: int| a.at(i, k) * b.at(k, j);
    lemma_sum_of_congruent(f, g, n);
    lemma_dot_is_sum(a, b, i, j, g, n);
}

/// The smallest power of two that is at least `n`.
fn pow2_at_least(n: usize) -> (r: usize)
    requires
        n >= 1,
        2 * n <= usize::MAX,
    ensures
        is_pow2(r as int),
        n <= r,
        r < 2 * n,
{
    let mut r: usize = 1;
    while r < n
        invariant
            n >= 1,
            2 * n <= usize::MAX,
            1 <= r,
            r < 2 * n,
            is_pow2(r as int),
        decreases 2 * n - r,
    {
        r = 2 * r;
    }
    r
}

impl Matrix {
    /// Strassen multiplication for an arbitrary square dimension: pads both
    /// operands with zeros up to the next power of two, runs the recursion,
    /// and copies the top-left block back out.  Every entry of the result is
    /// the classical product entry.
    pub fn multiply_strassen(&self, m: &Matrix, base_case: usize) -> (res: Matrix)
        requires
            self.wf(),
            m.wf(),
            self.n() == m.n(),
            base_case >= 1,
            4 * (self.n() * self.n()) <= usize::MAX,
        ensures
            res.wf(),
            res.n() == self.n(),
            forall|i: int, j: int|
                0 <= i < self.n() && 0 <= j < self.n()
                    ==> res.at(i, j) == prod_entry(*self, *m, i, j),
    {
        broadcast use crate::matrix::lemma_n_bound, crate::matrix::lemma_wf_dim_bound;

        let n = self.dim();
        if n == 0 {
            return Matrix::zero_filled(0);
        }
        proof {
            assert(2 * (n as int) <= usize::MAX && (2 * n as int) * (2 * n as int) <= 4 * (
            n as int * n as int)) by (nonlinear_arith)
                requires
                    n as int >= 1,
                    4 * (n as int * n as int) <= usize::MAX,
            ;
        }
        let md = pow2_at_least(n);
        proof {
            assert((md as int) * (md as int) <= (2 * n as int) * (2 * n as int))
                by (nonlinear_arith)
                requires
                    0 <= md as int,
                    md as int <= 2 * n as int,
            ;
        }
        let mut a_prep = Matrix::zero_filled(md);
        let mut b_prep = Matrix::zero_filled(md);
        let mut i: usize = 0;
        while i < n
            invariant
                i <= n,
                n <= md,
                self.wf(),
                m.wf(),
                self.n() == n,
                m.n() == n,
                a_prep.wf(),
                a_prep.n() == md,
                b_prep.wf(),
                b_prep.n() == md,
                forall|r: int, c: int|
                    0 <= r < i && 0 <= c < n ==> #[trigger] a_prep.at(r, c) == self.at(r, c),
                forall|r: int, c: int|
                    0 <= r < i && 0 <= c < n ==> #[trigger] b_prep.at(r, c) == m.at(r, c),
                forall|r: int, c: int|
                    0 <= r < md && 0 <= c < md && (r >= i || c >= n)
                        ==> #[trigger] a_prep.at(r, c) == 0,
                forall|r: int, c: int|
                    0 <= r < md && 0 <= c < md && (r >= i || c >= n)
                        ==> #[trigger] b_prep.at(r, c) == 0,
            decreases n - i,
        {
            let mut j: usize = 0;
            while j < n
                invariant
                    i < n,
                    j <= n,
                    n <= md,
                    self.wf(),
                    m.wf(),
                    self.n() == n,
                    m.n() == n,
                    a_prep.wf(),
                    a_prep.n() == md,
                    b_prep.wf(),
                    b_prep.n() == md,
                    forall|r: int, c: int|
                        0 <= r < i && 0 <= c < n ==> #[trigger] a_prep.at(r, c) == self.at(r, c),
                    forall|r: int, c: int|
                        0 <= r < i && 0 <= c < n ==> #[trigger] b_prep.at(r, c) == m.at(r, c),
                    forall|c: int|
                        0 <= c < j ==> #[trigger] a_prep.at(i as int, c) == self.at(i as int, c),
                    forall|c: int|
                        0 <= c < j ==> #[trigger] b_prep.at(i as int, c) == m.at(i as int, c),
                    forall|r: int, c: int|
                        0 <= r < md && 0 <= c < md && (r > i || c >= n) && (r >= i || c >= n)
                            ==> #[trigger] a_prep.at(r, c) == 0,
                    forall|r: int, c: int|
                        0 <= r < md && 0 <= c < md && (r > i || c >= n) && (r >= i || c >= n)
                            ==> #[trigger] b_prep.at(r, c) == 0,
                    forall|c: int|
                        j <= c < n ==> #[trigger] a_prep.at(i as int, c) == 0,
                    forall|c: int|
                        j <= c < n ==> #[trigger] b_prep.at(i as int, c) == 0,
                decreases n - j,
            {
                let va = self.get_el(i, j);
                a_prep.set_el(i, j, va);
                let vb = m.get_el(i, j);
                b_prep.set_el(i, j, vb);
                j = j + 1;
            }
            i = i + 1;
        }
        let c_prep = a_prep.strassen_recursion(&b_prep, base_case);
        let c = c_prep.sub_block(0, 0, n);
        proof {
            assert forall|i2: int, j2: int|
                0 <= i2 < n && 0 <= j2 < n implies c.at(i2, j2) == prod_entry(*self, *m, i2, j2) by {
                assert(c.at(i2, j2) == c_prep.at(i2, j2));
                lemma_padding_entry(
                    *self,
                    *m,
                    a_prep,
                    b_prep,
                    n as int,
                    md as int,
                    i2,
                    j2,
                );
            }
        }
        c
    }
}

} // verus!
