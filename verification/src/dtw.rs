//! Sequence similarity by dynamic time warping: bounded chroma histories
//! are flattened and aligned; the alignment's cost becomes a similarity
//! score, one when the distance is zero and `1/distance` otherwise.

use crate::fixed::UNIT;
use vstd::prelude::*;

verus! {

/// The similarity strategies the matcher can be configured with.
#[derive(Clone, Copy, Debug, PartialEq, Eq, Structural)]
pub enum SimilarityMetric {
    Dtw,
}

/// The pointwise distance fed to the warping alignment.
#[derive(Clone, Copy, Debug, PartialEq, Eq, Structural)]
pub enum DistanceMetric {
    Euclidean,
    Manhattan,
}

/// Cost of aligning one pair of points: their absolute difference, or its
/// square for the Euclidean metric (whose root is drawn once at the end).
pub open spec fn spec_point_cost(a: u64, b: u64, squared: bool) -> int {
    let d: int = if a >= b {
        a - b
    } else {
        b - a
    };
    if squared {
        d * d
    } else {
        d
    }
}

pub open spec fn spec_min(x: int, y: int) -> int {
    if x <= y {
        x
    } else {
        y
    }
}

/// The dynamic-time-warping cost of aligning the first `i` points of `a`
/// with the first `j` points of `b` (both one-based): the point cost plus
/// the cheapest of shrinking either prefix or both.
pub open spec fn spec_dtw_cost(a: Seq<u64>, b: Seq<u64>, i: int, j: int, squared: bool) -> int
    recommends
        1 <= i <= a.len(),
        1 <= j <= b.len(),
    decreases (if i <= 1 { 1int } else { i }) + (if j <= 1 { 1int } else { j }),
{
    let c = spec_point_cost(a[i - 1], b[j - 1], squared);
    if i <= 1 && j <= 1 {
        c
    } else if i <= 1 {
        c + spec_dtw_cost(a, b, 1, j - 1, squared)
    } else if j <= 1 {
        c + spec_dtw_cost(a, b, i - 1, 1, squared)
    } else {
        c + spec_min(
            spec_dtw_cost(a, b, i - 1, j, squared),
            spec_min(
                spec_dtw_cost(a, b, i, j - 1, squared),
                spec_dtw_cost(a, b, i - 1, j - 1, squared),
            ),
        )
    }
}

proof fn lemma_point_cost_bounds(a: u64, b: u64, squared: bool)
    requires
        a <= UNIT,
        b <= UNIT,
    ensures
        0 <= spec_point_cost(a, b, squared) <= 1_000_000_000_000,
{
    let d: int = if a >= b {
        a - b
    } else {
        b - a
    };
    assert(0 <= d <= 1_000_000);
    if squared {
        assert(d * d <= 1_000_000_000_000) by (nonlinear_arith)
            requires
                0 <= d <= 1_000_000,
        ;
    }
}

proof fn lemma_dtw_cost_bounds(a: Seq<u64>, b: Seq<u64>, i: int, j: int, squared: bool)
    requires
        1 <= i <= a.len(),
        1 <= j <= b.len(),
        forall|k: int| 0 <= k < a.len() ==> #[trigger] a[k] <= UNIT,
        forall|k: int| 0 <= k < b.len() ==> #[trigger] b[k] <= UNIT,
    ensures
        0 <= spec_dtw_cost(a, b, i, j, squared) <= (i + j) * 1_000_000_000_000,
    decreases i + j,
{
    lemma_point_cost_bounds(a[i - 1], b[j - 1], squared);
    if i <= 1 && j <= 1 {
    } else if i <= 1 {
        lemma_dtw_cost_bounds(a, b, 1, j - 1, squared);
    } else if j <= 1 {
        lemma_dtw_cost_bounds(a, b, i - 1, 1, squared);
    } else {
        lemma_dtw_cost_bounds(a, b, i - 1, j, squared);
        lemma_dtw_cost_bounds(a, b, i, j - 1, squared);
        lemma_dtw_cost_bounds(a, b, i - 1, j - 1, squared);
    }
}

/// Law: a sequence aligned against itself costs nothing — the diagonal
/// path pairs every point with itself at distance zero, and no alignment
/// can cost less. The similarity of a history with itself is therefore
/// exactly one.
pub proof fn lemma_dtw_self_zero(a: Seq<u64>, i: int, squared: bool)
    requires
        1 <= i <= a.len(),
    ensures
        spec_dtw_cost(a, a, i, i, squared) == 0,
    decreases i,
{
    assert(spec_point_cost(a[i - 1], a[i - 1], squared) == 0);
    if i > 1 {
        lemma_dtw_self_zero(a, i - 1, squared);
        lemma_dtw_cost_nonneg(a, a, i - 1, i, squared);
        lemma_dtw_cost_nonneg(a, a, i, i - 1, squared);
    }
}

proof fn lemma_dtw_cost_nonneg(a: Seq<u64>, b: Seq<u64>, i: int, j: int, squared: bool)
    requires
        1 <= i <= a.len(),
        1 <= j <= b.len(),
    ensures
        spec_dtw_cost(a, b, i, j, squared) >= 0,
    decreases i + j,
{
    let d: int = if a[i - 1] >= b[j - 1] {
        a[i - 1] - b[j - 1]
    } else {
        b[j - 1] - a[i - 1]
    };
    if squared {
        assert(d * d >= 0) by (nonlinear_arith);
    }
    if i <= 1 && j <= 1 {
    } else if i <= 1 {
        lemma_dtw_cost_nonneg(a, b, 1, j - 1, squared);
    } else if j <= 1 {
        lemma_dtw_cost_nonneg(a, b, i - 1, 1, squared);
    } else {
        lemma_dtw_cost_nonneg(a, b, i - 1, j, squared);
        lemma_dtw_cost_nonneg(a, b, i, j - 1, squared);
        lemma_dtw_cost_nonneg(a, b, i - 1, j - 1, squared);
    }
}

fn point_cost(a: u64, b: u64, squared: bool) -> (r: u128)
    requires
        a <= UNIT,
        b <= UNIT,
    ensures
        r == spec_point_cost(a, b, squared),
        r <= 1_000_000_000_000,
{
    let d: u64 = if a >= b {
        a - b
    } else {
        b - a
    };
    if squared {
        proof {
            assert((d as int) * (d as int) <= 1_000_000_000_000) by (nonlinear_arith)
                requires
                    0 <= d <= 1_000_000,
            ;
        }
        (d as u128) * (d as u128)
    } else {
        d as u128
    }
}

fn min_u128(x: u128, y: u128) -> (r: u128)
    ensures
        r == spec_min(x as int, y as int),
{
    if x <= y {
        x
    } else {
        y
    }
}

/// The full warping cost of two nonempty sequences, by dynamic
/// programming over one row at a time.
fn dtw_table(a: &Vec<u64>, b: &Vec<u64>, squared: bool) -> (r: u128)
    requires
        a@.len() >= 1,
        b@.len() >= 1,
        forall|k: int| 0 <= k < a@.len() ==> #[trigger] a@[k] <= UNIT,
        forall|k: int| 0 <= k < b@.len() ==> #[trigger] b@[k] <= UNIT,
    ensures
        r == spec_dtw_cost(a@, b@, a@.len() as int, b@.len() as int, squared),
{
    let la = a.len();
    let lb = b.len();
    let mut prev_row: Vec<u128> = Vec::new();
    // First row: the prefix of `a` is a single point.
    let mut jj: usize = 0;
    while jj < lb
        invariant
            jj <= lb,
            lb == b@.len(),
            la == a@.len(),
            1 <= la,
            1 <= lb,
            forall|k: int| 0 <= k < a@.len() ==> #[trigger] a@[k] <= UNIT,
            forall|k: int| 0 <= k < b@.len() ==> #[trigger] b@[k] <= UNIT,
            prev_row@.len() == jj,
            forall|q: int|
                0 <= q < jj ==> #[trigger] prev_row@[q] == spec_dtw_cost(a@, b@, 1, q + 1, squared),
        decreases lb - jj,
    {
        let c = point_cost(a[0], b[jj], squared);
        proof {
            lemma_dtw_cost_bounds(a@, b@, 1, jj as int + 1, squared);
            if jj > 0 {
                lemma_dtw_cost_bounds(a@, b@, 1, jj as int, squared);
            }
        }
        if jj == 0 {
            prev_row.push(c);
        } else {
            let below = prev_row[jj - 1];
            prev_row.push(c + below);
        }
        jj = jj + 1;
    }
    // Remaining rows; `irow` is the one-based index of the row already
    // held in `prev_row`.
    let mut irow: usize = 1;
    while irow < la
        invariant
            1 <= irow <= la,
            lb == b@.len(),
            la == a@.len(),
            1 <= la,
            1 <= lb,
            forall|k: int| 0 <= k < a@.len() ==> #[trigger] a@[k] <= UNIT,
            forall|k: int| 0 <= k < b@.len() ==> #[trigger] b@[k] <= UNIT,
            prev_row@.len() == lb,
            forall|q: int|
                0 <= q < lb ==> #[trigger] prev_row@[q] == spec_dtw_cost(
                    a@,
                    b@,
                    irow as int,
                    q + 1,
                    squared,
                ),
        decreases la - irow,
    {
        let mut row: Vec<u128> = Vec::new();
        let mut jj: usize = 0;
        while jj < lb
            invariant
                jj <= lb,
                1 <= irow < la,
                lb == b@.len(),
                la == a@.len(),
                forall|k: int| 0 <= k < a@.len() ==> #[trigger] a@[k] <= UNIT,
                forall|k: int| 0 <= k < b@.len() ==> #[trigger] b@[k] <= UNIT,
                prev_row@.len() == lb,
                forall|q: int|
                    0 <= q < lb ==> #[trigger] prev_row@[q] == spec_dtw_cost(
                        a@,
                        b@,
                        irow as int,
                        q + 1,
                        squared,
                    ),
                row@.len() == jj,
                forall|q: int|
                    0 <= q < jj ==> #[trigger] row@[q] == spec_dtw_cost(
                        a@,
                        b@,
                        irow + 1,
                        q + 1,
                        squared,
                    ),
            decreases lb - jj,
        {
            let c = point_cost(a[irow], b[jj], squared);
            proof {
                lemma_dtw_cost_bounds(a@, b@, irow as int + 1, jj as int + 1, squared);
                lemma_dtw_cost_bounds(a@, b@, irow as int, jj as int + 1, squared);
                if jj > 0 {
                    lemma_dtw_cost_bounds(a@, b@, irow as int + 1, jj as int, squared);
                    lemma_dtw_cost_bounds(a@, b@, irow as int, jj as int, squared);
                }
                assert((irow + jj + 2) * 1_000_000_000_000 + 1_000_000_000_000 < u128::MAX)
                    by (nonlinear_arith)
                    requires
                        0 <= irow < 0x10000000000000000,
                        0 <= jj < 0x10000000000000000,
                ;
            }
            if jj == 0 {
                let best = prev_row[0];
                row.push(c + best);
            } else {
                let up = prev_row[jj];
                let left = row[jj - 1];
                let diag = prev_row[jj - 1];
                let best = min_u128(up, min_u128(left, diag));
                row.push(c + best);
            }
            jj = jj + 1;
        }
        prev_row = row;
        irow = irow + 1;
    }
    prev_row[lb - 1]
}

/// Floor of the square root, for drawing the Euclidean distance out of
/// its accumulated squares.
fn isqrt_u128(n: u128) -> (r: u128)
    ensures
        (r as int) * (r as int) <= n,
        n < ((r as int) + 1) * ((r as int) + 1),
{
    if n == 0 {
        proof {
            assert(0int * 0int == 0 && (0int + 1) * (0int + 1) == 1) by (nonlinear_arith);
        }
        return 0;
    }
    let mut lo: u128 = 0;
    let mut hi: u128 = 0x10000000000000000;
    proof {
        assert((0x10000000000000000 as int) * (0x10000000000000000 as int) > u128::MAX)
            by (nonlinear_arith);
    }
    while lo + 1 < hi
        invariant
            lo < hi <= 0x10000000000000000,
            (lo as int) * (lo as int) <= n,
            n < (hi as int) * (hi as int),
        decreases hi - lo,
    {
        let mid: u128 = lo + (hi - lo) / 2;
        proof {
            assert((mid as int) * (mid as int) < u128::MAX) by (nonlinear_arith)
                requires
                    0 <= mid < 0x10000000000000000,
            ;
        }
        if mid * mid <= n {
            lo = mid;
        } else {
            hi = mid;
        }
    }
    lo
}

/// One history of chroma frames laid out end to end.
pub open spec fn spec_flatten(s: Seq<Vec<u64>>) -> Seq<u64>
    decreases s.len(),
{
    if s.len() == 0 {
        Seq::<u64>::empty()
    } else {
        spec_flatten(s.drop_last()) + s.last()@
    }
}

proof fn lemma_flatten_bounded(s: Seq<Vec<u64>>)
    requires
        forall|i: int, k: int|
            0 <= i < s.len() && 0 <= k < s[i]@.len() ==> #[trigger] s[i]@[k] <= UNIT,
    ensures
        forall|k: int| 0 <= k < spec_flatten(s).len() ==> #[trigger] spec_flatten(s)[k] <= UNIT,
    decreases s.len(),
{
    if s.len() > 0 {
        assert(forall|i: int, k: int|
            0 <= i < s.drop_last().len() && 0 <= k < s.drop_last()[i]@.len()
                ==> #[trigger] s.drop_last()[i]@[k] <= UNIT);
        lemma_flatten_bounded(s.drop_last());
        assert(s.last() == s[s.len() - 1]);
        let head = spec_flatten(s.drop_last());
        assert forall|k: int| 0 <= k < spec_flatten(s).len() implies #[trigger] spec_flatten(s)[k]
            <= UNIT by {
            if k < head.len() {
                assert(spec_flatten(s)[k] == head[k]);
            } else {
                assert(spec_flatten(s)[k] == s[s.len() - 1]@[k - head.len()]);
            }
        }
    }
}

/// Lays a history of chroma frames out end to end.
fn flatten_history(s: &Vec<Vec<u64>>) -> (r: Vec<u64>)
    ensures
        r@ == spec_flatten(s@),
{
    let mut out: Vec<u64> = Vec::new();
    let mut i: usize = 0;
    while i < s.len()
        invariant
            i <= s@.len(),
            out@ == spec_flatten(s@.take(i as int)),
        decreases s@.len() - i,
    {
        let frame = &s[i];
        let mut k: usize = 0;
        while k < frame.len()
            invariant
                k <= frame@.len(),
                frame@ == s@[i as int]@,
                i < s@.len(),
                out@ == spec_flatten(s@.take(i as int)) + frame@.subrange(0, k as int),
            decreases frame@.len() - k,
        {
            out.push(frame[k]);
            proof {
                assert(out@ =~= spec_flatten(s@.take(i as int)) + frame@.subrange(
                    0,
                    k as int + 1,
                ));
            }
            k = k + 1;
        }
        proof {
            assert(s@.take(i as int + 1).drop_last() =~= s@.take(i as int));
            assert(s@.take(i as int + 1).last() == s@[i as int]);
            assert(frame@.subrange(0, frame@.len() as int) =~= frame@);
            assert(out@ =~= spec_flatten(s@.take(i as int + 1)));
        }
        i = i + 1;
    }
    proof {
        assert(s@.take(s@.len() as int) =~= s@);
    }
    out
}

/// The micro-unit similarity score that a warping distance earns: one for
/// a perfect alignment, `1/distance` otherwise.
pub open spec fn spec_similarity_of_distance(d: int) -> int {
    if d == 0 {
        UNIT as int
    } else {
        (UNIT as int) * (UNIT as int) / d
    }
}

/// Similarity between two chroma histories by dynamic time warping, as a
/// micro-unit score. Empty histories (or histories of empty frames) carry
/// no evidence and score zero. With the Manhattan metric the distance is
/// the alignment cost itself; with the Euclidean metric it is the floor
/// square root of the accumulated squared cost.
pub fn compute_dtw_similarity(
    a: &Vec<Vec<u64>>,
    b: &Vec<Vec<u64>>,
    distance_metric: &DistanceMetric,
) -> (r: u64)
    requires
        forall|i: int, k: int|
            0 <= i < a@.len() && 0 <= k < a@[i]@.len() ==> #[trigger] a@[i]@[k] <= UNIT,
        forall|i: int, k: int|
            0 <= i < b@.len() && 0 <= k < b@[i]@.len() ==> #[trigger] b@[i]@[k] <= UNIT,
    ensures
        (spec_flatten(a@).len() == 0 || spec_flatten(b@).len() == 0) ==> r == 0,
        (spec_flatten(a@).len() > 0 && spec_flatten(b@).len() > 0) ==> ({
            let fa = spec_flatten(a@);
            let fb = spec_flatten(b@);
            match distance_metric {
                DistanceMetric::Manhattan => r == spec_similarity_of_distance(
                    spec_dtw_cost(fa, fb, fa.len() as int, fb.len() as int, false),
                ),
                DistanceMetric::Euclidean => exists|s: int|
                    #![trigger spec_similarity_of_distance(s)]
                    {
                        let sq = spec_dtw_cost(fa, fb, fa.len() as int, fb.len() as int, true);
                        s >= 0 && s * s <= sq < (s + 1) * (s + 1) && r
                            == spec_similarity_of_distance(s)
                    },
            }
        }),
{
    let fa = flatten_history(a);
    let fb = flatten_history(b);
    if fa.len() == 0 || fb.len() == 0 {
        return 0;
    }
    proof {
        lemma_flatten_bounded(a@);
        lemma_flatten_bounded(b@);
    }
    match distance_metric {
        DistanceMetric::Manhattan => {
            let d = dtw_table(&fa, &fb, false);
            similarity_of_distance(d)
        },
        DistanceMetric::Euclidean => {
            let sq = dtw_table(&fa, &fb, true);
            let d = isqrt_u128(sq);
            let r = similarity_of_distance(d);
            proof {
                assert(spec_similarity_of_distance(d as int) == r as int);
            }
            r
        },
    }
}

/// The micro-unit score that a distance earns.
fn similarity_of_distance(d: u128) -> (r: u64)
    ensures
        r as int == spec_similarity_of_distance(d as int),
{
    if d == 0 {
        1_000_000
    } else {
        proof {
            assert(0 <= (UNIT as int) * (UNIT as int) / (d as int) <= 1_000_000_000_000)
                by (nonlinear_arith)
                requires
                    d >= 1,
                    UNIT == 1_000_000u64,
            ;
        }
        let score: u128 = (UNIT as u128) * (UNIT as u128) / d;
        score as u64
    }
}

/// Law: the similarity of any nonempty sequence with itself is exactly
/// one, under either pointwise metric — its warping distance is zero.
pub proof fn lemma_self_similarity_is_one(a: Seq<u64>, squared: bool)
    requires
        a.len() >= 1,
    ensures
        spec_similarity_of_distance(
            spec_dtw_cost(a, a, a.len() as int, a.len() as int, squared),
        ) == UNIT as int,
{
    lemma_dtw_self_zero(a, a.len() as int, squared);
}

impl SimilarityMetric {
    /// The similarity between two feature histories under the selected
    /// metric; dynamic time warping is the one strategy offered so far.
    pub fn compute_similarity(
        &self,
        a: &Vec<Vec<u64>>,
        b: &Vec<Vec<u64>>,
        distance_metric: &DistanceMetric,
    ) -> (r: u64)
        requires
            forall|i: int, k: int|
                0 <= i < a@.len() && 0 <= k < a@[i]@.len() ==> #[trigger] a@[i]@[k] <= UNIT,
            forall|i: int, k: int|
                0 <= i < b@.len() && 0 <= k < b@[i]@.len() ==> #[trigger] b@[i]@[k] <= UNIT,
        ensures
            (spec_flatten(a@).len() == 0 || spec_flatten(b@).len() == 0) ==> r == 0,
            (spec_flatten(a@).len() > 0 && spec_flatten(b@).len() > 0) ==> ({
                let fa = spec_flatten(a@);
                let fb = spec_flatten(b@);
                match distance_metric {
                    DistanceMetric::Manhattan => r == spec_similarity_of_distance(
                        spec_dtw_cost(fa, fb, fa.len() as int, fb.len() as int, false),
                    ),
                    DistanceMetric::Euclidean => exists|s: int|
                        #![trigger spec_similarity_of_distance(s)]
                        {
                            let sq = spec_dtw_cost(fa, fb, fa.len() as int, fb.len() as int, true);
                            s >= 0 && s * s <= sq < (s + 1) * (s + 1) && r
                                == spec_similarity_of_distance(s)
                        },
                }
            }),
    {
        match self {
            SimilarityMetric::Dtw => compute_dtw_similarity(a, b, distance_metric),
        }
    }
}

} // verus!
