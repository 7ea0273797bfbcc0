//! The distance metric.
//!
//! Vectors are integer-valued and the score of a pair is the negated
//! squared Euclidean distance, so higher scores mean closer points and
//! every score is an exact, reproducible integer. Coordinates are bounded
//! so that no score computation can overflow.

use vstd::prelude::*;

verus! {

/// Largest supported dimensionality.
pub const MAX_DIM: usize = 4096;

/// Largest magnitude of a single coordinate.
pub const COORD_LIMIT: i64 = 1048576;

/// Largest magnitude of one squared coordinate difference:
/// `(2 * COORD_LIMIT) ^ 2`.
pub const TERM_LIMIT: i64 = 4398046511104;

/// A coordinate within the supported range.
pub open spec fn coord_ok(x: i64) -> bool {
    -COORD_LIMIT <= x <= COORD_LIMIT
}

/// A vector of the given dimensionality, all coordinates in range.
pub open spec fn vector_ok(v: Seq<i64>, dim: nat) -> bool {
    &&& v.len() == dim
    &&& forall|i: int| 0 <= i < v.len() ==> coord_ok(#[trigger] v[i])
}

/// Score of `a` against `b`: the negated squared Euclidean distance.
pub open spec fn spec_score(a: Seq<i64>, b: Seq<i64>) -> int
    decreases a.len(),
{
    if a.len() == 0 || b.len() == 0 {
        0
    } else {
        spec_score(a.drop_last(), b.drop_last()) - (a.last() - b.last()) * (a.last() - b.last())
    }
}

/// Every score is non-positive and no smaller than `-len * TERM_LIMIT`.
pub proof fn lemma_score_bounds(a: Seq<i64>, b: Seq<i64>)
    requires
        a.len() == b.len(),
        forall|i: int| 0 <= i < a.len() ==> coord_ok(#[trigger] a[i]),
        forall|i: int| 0 <= i < b.len() ==> coord_ok(#[trigger] b[i]),
    ensures
        -(a.len() * TERM_LIMIT) <= spec_score(a, b) <= 0,
    decreases a.len(),
{
    if a.len() > 0 {
        lemma_score_bounds(a.drop_last(), b.drop_last());
        let d = a.last() - b.last();
        assert(-2 * COORD_LIMIT <= d <= 2 * COORD_LIMIT);
        assert(0 <= d * d <= TERM_LIMIT) by (nonlinear_arith)
            requires
                -2 * 1048576 <= d <= 2 * 1048576,
        ;
        assert(a.drop_last().len() * TERM_LIMIT + TERM_LIMIT == a.len() * TERM_LIMIT)
            by (nonlinear_arith)
            requires
                a.len() >= 1 && a.drop_last().len() == a.len() - 1,
        ;
    }
}

/// Compute the score of two stored vectors exactly as [`spec_score`] says.
pub fn score_points(a: &Vec<i64>, b: &Vec<i64>) -> (r: i64)
    requires
        a@.len() == b@.len(),
        a@.len() <= MAX_DIM,
        forall|i: int| 0 <= i < a@.len() ==> coord_ok(#[trigger] a@[i]),
        forall|i: int| 0 <= i < b@.len() ==> coord_ok(#[trigger] b@[i]),
    ensures
        r as int == spec_score(a@, b@),
        r <= 0,
{
    let n = a.len();
    let mut acc: i64 = 0;
    let mut i: usize = 0;
    proof {
        assert(a@.take(0) =~= Seq::<i64>::empty());
        assert(b@.take(0) =~= Seq::<i64>::empty());
    }
    while i < n
        invariant
            i <= n,
            n == a@.len() == b@.len(),
            n <= MAX_DIM,
            forall|k: int| 0 <= k < a@.len() ==> coord_ok(#[trigger] a@[k]),
            forall|k: int| 0 <= k < b@.len() ==> coord_ok(#[trigger] b@[k]),
            acc as int == spec_score(a@.take(i as int), b@.take(i as int)),
            -(i as int) * TERM_LIMIT <= acc as int <= 0,
        decreases n - i,
    {
        let d = a[i] - b[i];
        proof {
            assert(0 <= d * d <= TERM_LIMIT) by (nonlinear_arith)
                requires
                    -2 * 1048576 <= d <= 2 * 1048576,
            ;
            assert(-(i as int) * TERM_LIMIT - TERM_LIMIT == -((i + 1) as int) * TERM_LIMIT)
                by (nonlinear_arith);
            assert(-((i + 1) as int) * TERM_LIMIT >= -(MAX_DIM as int) * TERM_LIMIT)
                by (nonlinear_arith)
                requires
                    i + 1 <= MAX_DIM as int,
            ;
            let ap = a@.take(i as int + 1);
            let bp = b@.take(i as int + 1);
            assert(ap.drop_last() =~= a@.take(i as int));
            assert(bp.drop_last() =~= b@.take(i as int));
            assert(ap.last() == a@[i as int]);
            assert(bp.last() == b@[i as int]);
        }
        acc = acc - d * d;
        i = i + 1;
    }
    proof {
        assert(a@.take(n as int) =~= a@);
        assert(b@.take(n as int) =~= b@);
    }
    acc
}

} // verus!
