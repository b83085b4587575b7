//! The algebraic laws of the two multipliers, stated over the spec-level
//! product entries that the executable functions' contracts pin down.

use vstd::prelude::*;
use crate::matrix::{Matrix, dot, prod_entry, matrix_eq};

verus! {

/// `idm` is the identity matrix of its dimension.
pub open spec fn is_identity(idm: Matrix) -> bool {
    forall|i: int, j: int|
        0 <= i < idm.n() && 0 <= j < idm.n()
            ==> idm.at(i, j) == if i == j { 1int } else { 0int }
}

/// `z` is a zero matrix.
pub open spec fn is_zero_matrix(z: Matrix) -> bool {
    forall|i: int, j: int| 0 <= i < z.n() && 0 <= j < z.n() ==> z.at(i, j) == 0
}

/// A prefix dot product against an identity column picks out one element.
proof fn lemma_dot_identity_right(a: Matrix, idm: Matrix, i: int, j: int, t: int)
    requires
        is_identity(idm),
        idm.n() == a.n(),
        0 <= j < a.n(),
        t <= a.n(),
    ensures
        dot(a, idm, i, j, t) == if j < t { a.at(i, j) } else { 0 },
    decreases t,
{
    if t > 0 {
        lemma_dot_identity_right(a, idm, i, j, t - 1);
        if t - 1 == j {
            assert(a.at(i, j) * 1 == a.at(i, j)) by (nonlinear_arith);
        } else {
            assert(a.at(i, t - 1) * 0 == 0) by (nonlinear_arith);
        }
    }
}

/// A prefix dot product against an identity row picks out one element.
proof fn lemma_dot_identity_left(idm: Matrix, b: Matrix, i: int, j: int, t: int)
    requires
        is_identity(idm),
        idm.n() == b.n(),
        0 <= i < b.n(),
        t <= b.n(),
    ensures
        dot(idm, b, i, j, t) == if i < t { b.at(i, j) } else { 0 },
    decreases t,
{
    if t > 0 {
        lemma_dot_identity_left(idm, b, i, j, t - 1);
        if t - 1 == i {
            assert(1 * b.at(i, j) == b.at(i, j)) by (nonlinear_arith);
        } else {
            assert(0 * b.at(t - 1, j) == 0) by (nonlinear_arith);
        }
    }
}

/// Multiplying by the identity matrix, on either side, leaves every product
/// entry equal to the corresponding element of the other operand.  Through the
/// multipliers' contracts this holds of both the classical result and the
/// Strassen result, for every `base_case`.
pub proof fn lemma_multiply_identity(a: Matrix, idm: Matrix)
    requires
        is_identity(idm),
        idm.n() == a.n(),
    ensures
        forall|i: int, j: int|
            0 <= i < a.n() && 0 <= j < a.n() ==> #[trigger] prod_entry(a, idm, i, j) == a.at(i, j),
        forall|i: int, j: int|
            0 <= i < a.n() && 0 <= j < a.n() ==> #[trigger] prod_entry(idm, a, i, j) == a.at(i, j),
{
    assert forall|i: int, j: int|
        0 <= i < a.n() && 0 <= j < a.n() implies #[trigger] prod_entry(a, idm, i, j) == a.at(
        i,
        j,
    ) by {
        lemma_dot_identity_right(a, idm, i, j, a.n());
    }
    assert forall|i: int, j: int|
        0 <= i < a.n() && 0 <= j < a.n() implies #[trigger] prod_entry(idm, a, i, j) == a.at(
        i,
        j,
    ) by {
        lemma_dot_identity_left(idm, a, i, j, a.n());
    }
}

/// A prefix dot product whose right operand is a zero matrix is zero.
proof fn lemma_dot_zero_right(a: Matrix, b: Matrix, i: int, j: int, t: int)
    requires
        is_zero_matrix(b),
        t <= b.n(),
        0 <= j < b.n(),
    ensures
        dot(a, b, i, j, t) == 0,
    decreases t,
{
    if t > 0 {
        lemma_dot_zero_right(a, b, i, j, t - 1);
        assert(a.at(i, t - 1) * 0 == 0) by (nonlinear_arith);
    }
}

/// A prefix dot product whose left operand is a zero matrix is zero.
proof fn lemma_dot_zero_left(a: Matrix, b: Matrix, i: int, j: int, t: int)
    requires
        is_zero_matrix(a),
        t <= a.n(),
        0 <= i < a.n(),
    ensures
        dot(a, b, i, j, t) == 0,
    decreases t,
{
    if t > 0 {
        lemma_dot_zero_left(a, b, i, j, t - 1);
        assert(0 * b.at(t - 1, j) == 0) by (nonlinear_arith);
    }
}

/// Multiplying by a zero matrix, on either side, yields a zero matrix: every
/// product entry is zero.  Through the multipliers' contracts this holds of
/// both algorithms' results.
pub proof fn lemma_multiply_zero(a: Matrix, z: Matrix)
    requires
        is_zero_matrix(z),
        z.n() == a.n(),
    ensures
        forall|i: int, j: int|
            0 <= i < a.n() && 0 <= j < a.n() ==> #[trigger] prod_entry(a, z, i, j) == 0,
        forall|i: int, j: int|
            0 <= i < a.n() && 0 <= j < a.n() ==> #[trigger] prod_entry(z, a, i, j) == 0,
{
    assert forall|i: int, j: int|
        0 <= i < a.n() && 0 <= j < a.n() implies #[trigger] prod_entry(a, z, i, j) == 0 by {
        lemma_dot_zero_right(a, z, i, j, a.n());
    }
    assert forall|i: int, j: int|
        0 <= i < a.n() && 0 <= j < a.n() implies #[trigger] prod_entry(z, a, i, j) == 0 by {
        lemma_dot_zero_left(z, a, i, j, z.n());
    }
}

/// Any two result matrices whose entries equal the product entries of the same
/// operands are equal matrices.  Instantiated with the classical and the
/// Strassen result this is the equivalence of the two algorithms; instantiated
/// with two Strassen results it says the `base_case` threshold (immediate
/// fallback or maximal recursion alike) does not affect the result.
pub proof fn lemma_product_results_agree(a: Matrix, b: Matrix, c1: Matrix, c2: Matrix)
    requires
        c1.n() == a.n(),
        c2.n() == a.n(),
        forall|i: int, j: int|
            0 <= i < a.n() && 0 <= j < a.n() ==> c1.at(i, j) == #[trigger] prod_entry(a, b, i, j),
        forall|i: int, j: int|
            0 <= i < a.n() && 0 <= j < a.n() ==> c2.at(i, j) == #[trigger] prod_entry(a, b, i, j),
    ensures
        matrix_eq(c1, c2),
{
    assert forall|i: int, j: int|
        0 <= i < c1.n() && 0 <= j < c1.n() implies c1.at(i, j) == c2.at(i, j) by {
        assert(c1.at(i, j) == prod_entry(a, b, i, j));
        assert(c2.at(i, j) == prod_entry(a, b, i, j));
    }
}

} // verus!
