//! The relevance scorer's reduction step.
//!
//! The scorer rates a document against each matched vocabulary token by the
//! best match between any of the document's vectors and that token's vector:
//! the maximum over the rows of a score matrix.  The dot products themselves
//! are floating-point work done outside this crate; what arrives here is the
//! full row-major matrix of scores as IEEE-754 bit patterns, one row per
//! document vector and one column per token, and this module takes each
//! column's maximum in IEEE-754 order, deterministically: a later row
//! replaces the running maximum only when it is strictly greater, so NaN
//! entries after the first row never win.

use vstd::prelude::*;

use crate::error::RetrievalError;
use crate::quantize::f32_lt;
use crate::quantize::f32_lt_bits;

verus! {

/// The running maximum of a column, folded from the first row down: entry
/// `scores[r * n2 + col]` is row `r` of the column.
pub open spec fn col_max(scores: Seq<u32>, n2: nat, col: nat, rows: nat) -> u32
    decreases rows,
{
    if rows <= 1 {
        scores[col as int]
    } else {
        let prev = col_max(scores, n2, col, (rows - 1) as nat);
        let cur = scores[((rows - 1) * n2 + col) as int];
        if f32_lt(prev, cur) {
            cur
        } else {
            prev
        }
    }
}

/// The per-token maxima of a row-major score matrix with `rows` rows and
/// `n2` columns.
pub open spec fn max_per_token(scores: Seq<u32>, n2: nat, rows: nat) -> Seq<u32> {
    if rows == 0 {
        Seq::empty()
    } else {
        Seq::new(n2, |c: int| col_max(scores, n2, c as nat, rows))
    }
}

/// Reduce a row-major matrix of scores (one row per document vector, one
/// column per matched token) to each token's maximum score.  An empty matrix
/// (no rows, or no columns) reduces to an empty result; a matrix that is not
/// a whole number of rows is rejected.
pub fn calculate_max_sim(scores: &Vec<u32>, n2: usize) -> (r: Result<Vec<u32>, RetrievalError>)
    ensures
        match r {
            Result::Ok(v) => {
                &&& (n2 == 0 ==> scores@.len() == 0 && v@.len() == 0)
                &&& (n2 > 0 ==> scores@.len() % (n2 as nat) == 0 && v@ == max_per_token(
                    scores@,
                    n2 as nat,
                    scores@.len() / (n2 as nat),
                ))
            },
            Result::Err(e) => {
                &&& e == RetrievalError::DimensionMismatch
                &&& (if n2 == 0 {
                    scores@.len() > 0
                } else {
                    scores@.len() % (n2 as nat) != 0
                })
            },
        },
{
    if n2 == 0 {
        if scores.len() > 0 {
            return Result::Err(RetrievalError::DimensionMismatch);
        }
        let empty: Vec<u32> = Vec::new();
        return Result::Ok(empty);
    }
    if scores.len() % n2 != 0 {
        return Result::Err(RetrievalError::DimensionMismatch);
    }
    let rows: usize = scores.len() / n2;
    proof {
        vstd::arithmetic::div_mod::lemma_fundamental_div_mod(scores@.len() as int, n2 as int);
        assert(scores@.len() == n2 * rows);
        assert((n2 as int) * (rows as int) == (rows as int) * (n2 as int)) by (nonlinear_arith);
    }
    if rows == 0 {
        let empty: Vec<u32> = Vec::new();
        return Result::Ok(empty);
    }
    let mut out: Vec<u32> = Vec::new();
    let mut c: usize = 0;
    while c < n2
        invariant
            0 <= c <= n2,
            0 < n2,
            0 < rows,
            rows as nat == scores@.len() / (n2 as nat),
            scores@.len() == rows * n2,
            scores@.len() <= usize::MAX,
            out@.len() == c,
            forall|k: int| 0 <= k < c ==> out@[k] == col_max(scores@, n2 as nat, k as nat, rows as nat),
        decreases n2 - c,
    {
        proof {
            assert((rows - 1) * n2 + c < rows * n2) by (nonlinear_arith)
                requires
                    rows >= 1,
                    n2 >= 1,
                    0 <= c < n2,
            ;
            assert(forall|r2: int|
                0 <= r2 < rows - 1 ==> #[trigger] (r2 * (n2 as int)) <= (rows - 1) * (n2 as int))
                by (nonlinear_arith);
        }
        proof {
            assert(n2 <= rows * n2) by (nonlinear_arith)
                requires
                    rows >= 1,
                    n2 >= 0,
            ;
        }
        let mut best: u32 = scores[c];
        let mut r2: usize = 1;
        while r2 < rows
            invariant
                1 <= r2 <= rows,
                0 < n2,
                0 <= c < n2,
                scores@.len() == rows * n2,
                scores@.len() <= usize::MAX,
                forall|a: int|
                    1 <= a < rows ==> #[trigger] (a * (n2 as int)) + c < scores@.len() && a * (
                    n2 as int) >= 0,
                best == col_max(scores@, n2 as nat, c as nat, r2 as nat),
            decreases rows - r2,
        {
            proof {
                assert((r2 as int) * (n2 as int) + c < scores@.len());
                assert((r2 as int) * (n2 as int) >= 0);
            }
            let cur: u32 = scores[r2 * n2 + c];
            if f32_lt_bits(best, cur) {
                best = cur;
            }
            r2 = r2 + 1;
        }
        out.push(best);
        c = c + 1;
    }
    proof {
        assert(out@ =~= max_per_token(scores@, n2 as nat, rows as nat));
    }
    Result::Ok(out)
}

} // verus!
