//! Finite sums of integer-valued functions over an index prefix `[0, t)`,
//! with the lemmas the matrix proofs need: congruence, linearity, splitting,
//! and bounds.
//!
//! The combination lemmas take the combined function as an explicit argument,
//! pinned pointwise by a `requires`, so callers never depend on two closure
//! expressions being the same term.

use vstd::prelude::*;

verus! {

/// The sum `f(0) + f(1) + ... + f(t - 1)` (zero when `t <= 0`).
pub open spec fn sum_of(f: spec_fn(int) -> int, t: int) -> int
    decreases t,
{
    if t <= 0 {
        0
    } else {
        sum_of(f, t - 1) + f(t - 1)
    }
}

/// Functions that agree on `[0, t)` have the same sum.
pub proof fn lemma_sum_of_congruent(f: spec_fn(int) -> int, g: spec_fn(int) -> int, t: int)
    requires
        forall|k: int| 0 <= k < t ==> #[trigger] f(k) == g(k),
    ensures
        sum_of(f, t) == sum_of(g, t),
    decreases t,
{
    if t > 0 {
        lemma_sum_of_congruent(f, g, t - 1);
    }
}

/// The sum of a pointwise sum is the sum of the sums.
pub proof fn lemma_sum_of_add(
    f: spec_fn(int) -> int,
    g: spec_fn(int) -> int,
    fg: spec_fn(int) -> int,
    t: int,
)
    requires
        forall|k: int| 0 <= k < t ==> #[trigger] fg(k) == f(k) + g(k),
    ensures
        sum_of(fg, t) == sum_of(f, t) + sum_of(g, t),
    decreases t,
{
    if t > 0 {
        lemma_sum_of_add(f, g, fg, t - 1);
    }
}

/// The sum of a pointwise difference is the difference of the sums.
pub proof fn lemma_sum_of_sub(
    f: spec_fn(int) -> int,
    g: spec_fn(int) -> int,
    fg: spec_fn(int) -> int,
    t: int,
)
    requires
        forall|k: int| 0 <= k < t ==> #[trigger] fg(k) == f(k) - g(k),
    ensures
        sum_of(fg, t) == sum_of(f, t) - sum_of(g, t),
    decreases t,
{
    if t > 0 {
        lemma_sum_of_sub(f, g, fg, t - 1);
    }
}

/// A sum over `[0, t1 + t2)` splits at `t1`, with `fs` the tail re-indexed
/// to start at zero.
pub proof fn lemma_sum_of_split(
    f: spec_fn(int) -> int,
    t1: int,
    t2: int,
    fs: spec_fn(int) -> int,
)
    requires
        t1 >= 0,
        t2 >= 0,
        forall|k: int| 0 <= k < t2 ==> #[trigger] fs(k) == f(t1 + k),
    ensures
        sum_of(f, t1 + t2) == sum_of(f, t1) + sum_of(fs, t2),
    decreases t2,
{
    if t2 > 0 {
        lemma_sum_of_split(f, t1, t2 - 1, fs);
    }
}

/// A function that is zero on `[0, t)` sums to zero.
pub proof fn lemma_sum_of_zero(f: spec_fn(int) -> int, t: int)
    requires
        forall|k: int| 0 <= k < t ==> #[trigger] f(k) == 0,
    ensures
        sum_of(f, t) == 0,
    decreases t,
{
    if t > 0 {
        lemma_sum_of_zero(f, t - 1);
    }
}

} // verus!
