//! Frame comparison: the sum of squared differences between two planes,
//! and the combination of per-plane PSNR values (fixed point, dB × 100)
//! into a frame verdict. The per-plane PSNR itself is a floating-point
//! logarithm and is computed by the caller.

use vstd::prelude::*;

verus! {

/// Fixed-point scale of PSNR values: `psnr_db * PSNR_SCALE`.
pub const PSNR_SCALE: i64 = 100;

/// The sum of squared differences of `a[..n]` and `b[..n]`.
pub open spec fn sse_spec(a: Seq<u8>, b: Seq<u8>, n: int) -> int
    decreases n,
{
    if n <= 0 {
        0
    } else {
        let d = a[n - 1] as int - b[n - 1] as int;
        sse_spec(a, b, n - 1) + d * d
    }
}

proof fn lemma_sse_bound(a: Seq<u8>, b: Seq<u8>, n: int)
    requires
        0 <= n,
    ensures
        0 <= sse_spec(a, b, n) <= 65025 * n,
    decreases n,
{
    if n > 0 {
        lemma_sse_bound(a, b, n - 1);
        let d = a[n - 1] as int - b[n - 1] as int;
        assert(0 <= d * d <= 65025) by (nonlinear_arith)
            requires
                -255 <= d <= 255;
    }
}

/// The sum of squared differences between two planes of equal length.
pub fn sum_squared_error(a: &[u8], b: &[u8]) -> (sum: i64)
    requires
        a@.len() == b@.len(),
        a@.len() * 65025 <= i64::MAX,
    ensures
        sum == sse_spec(a@, b@, a@.len() as int),
{
    let mut sum: i64 = 0;
    let mut i: usize = 0;
    while i < a.len()
        invariant
            i <= a@.len(),
            a@.len() == b@.len(),
            a@.len() * 65025 <= i64::MAX,
            sum == sse_spec(a@, b@, i as int),
        decreases a@.len() - i,
    {
        proof { lemma_sse_bound(a@, b@, i + 1); }
        let diff = a[i] as i64 - b[i] as i64;
        assert(0 <= diff * diff <= 65025) by (nonlinear_arith)
            requires
                -255 <= diff <= 255;
        assert(sum + diff * diff == sse_spec(a@, b@, i + 1));
        sum += diff * diff;
        i += 1;
    }
    sum
}

/// The PSNR values of the three planes, their weighted combination and the
/// verdict against the tolerance.
#[derive(Clone, Copy, Debug, PartialEq, Eq)]
pub struct FramePsnrResult {
    pub psnr_y_scaled: i64,
    pub psnr_u_scaled: i64,
    pub psnr_v_scaled: i64,
    pub psnr_combined_scaled: i64,
    pub meets_threshold: bool,
}

/// A PSNR value as the per-plane computation yields it: `i64::MAX` for
/// identical planes, else far from the `i64` limits.
pub open spec fn psnr_value_ok(p: i64) -> bool {
    p == i64::MAX || -0x1000_0000_0000_0000 <= p <= 0x1000_0000_0000_0000
}

/// The combined PSNR: `(4·Y + U + V) / 6` (4:2:0 pixel weights), leaving
/// out infinite (`i64::MAX`) planes, and `i64::MAX` when all are
/// infinite. Division truncates toward zero.
pub open spec fn combined_psnr_spec(y: i64, u: i64, v: i64) -> int {
    if y == i64::MAX || u == i64::MAX || v == i64::MAX {
        let sum = (if y != i64::MAX { 4 * y } else { 0 }) + (if u != i64::MAX { u as int } else { 0 })
            + (if v != i64::MAX { v as int } else { 0 });
        let weight = (if y != i64::MAX { 4int } else { 0 }) + (if u != i64::MAX { 1int } else { 0 })
            + (if v != i64::MAX { 1int } else { 0 });
        if weight > 0 { trunc_div(sum, weight) } else { i64::MAX as int }
    } else {
        trunc_div(4 * y + u + v, 6)
    }
}

/// Integer division rounding toward zero, as Rust's `/` does.
pub open spec fn trunc_div(a: int, b: int) -> int {
    if a >= 0 { a / b } else { -((-a) / b) }
}

/// Combine the per-plane PSNR values of a frame and check the result
/// against `tolerance_db_scaled`: the frame passes when the combination is
/// infinite or at least the tolerance.
pub fn frame_psnr(psnr_y: i64, psnr_u: i64, psnr_v: i64, tolerance_db_scaled: i64) -> (r: FramePsnrResult)
    requires
        psnr_value_ok(psnr_y),
        psnr_value_ok(psnr_u),
        psnr_value_ok(psnr_v),
    ensures
        r.psnr_y_scaled == psnr_y,
        r.psnr_u_scaled == psnr_u,
        r.psnr_v_scaled == psnr_v,
        r.psnr_combined_scaled == combined_psnr_spec(psnr_y, psnr_u, psnr_v),
        r.meets_threshold == (r.psnr_combined_scaled == i64::MAX || r.psnr_combined_scaled >= tolerance_db_scaled),
{
    let total_weight: i64 = 6;
    let combined = if psnr_y == i64::MAX || psnr_u == i64::MAX || psnr_v == i64::MAX {
        let mut sum: i64 = 0;
        let mut weight: i64 = 0;
        if psnr_y != i64::MAX {
            sum += 4 * psnr_y;
            weight += 4;
        }
        if psnr_u != i64::MAX {
            sum += psnr_u;
            weight += 1;
        }
        if psnr_v != i64::MAX {
            sum += psnr_v;
            weight += 1;
        }
        if weight > 0 {
            sum / weight
        } else {
            i64::MAX
        }
    } else {
        (4 * psnr_y + psnr_u + psnr_v) / total_weight
    };
    FramePsnrResult {
        psnr_y_scaled: psnr_y,
        psnr_u_scaled: psnr_u,
        psnr_v_scaled: psnr_v,
        psnr_combined_scaled: combined,
        meets_threshold: combined == i64::MAX || combined >= tolerance_db_scaled,
    }
}

/// The frame verdict is monotone in the tolerance: a frame that passes at
/// tolerance `t` passes at every lower tolerance.
pub proof fn lemma_verdict_monotone(y: i64, u: i64, v: i64, t: i64, lower: i64)
    requires
        lower <= t,
    ensures
        ({
            let c = combined_psnr_spec(y, u, v);
            (c == i64::MAX || c >= t) ==> (c == i64::MAX || c >= lower)
        }),
{
}

/// With every plane finite, the combined PSNR lies between the smallest
/// and the largest plane value.
pub proof fn lemma_combined_between(y: i64, u: i64, v: i64)
    requires
        y != i64::MAX,
        u != i64::MAX,
        v != i64::MAX,
    ensures
        ({
            let lo = if y <= u && y <= v { y } else if u <= v { u } else { v };
            let hi = if y >= u && y >= v { y } else if u >= v { u } else { v };
            lo <= combined_psnr_spec(y, u, v) <= hi
        }),
{
}

/// With every plane finite the combined PSNR is `(4·Y + U + V) / 6`
/// rounded toward zero: six times it lies within six of the weighted sum,
/// on the side of zero.
pub proof fn lemma_combined_finite(y: i64, u: i64, v: i64)
    requires
        y != i64::MAX,
        u != i64::MAX,
        v != i64::MAX,
    ensures
        ({
            let sum = 4 * y + u + v;
            let c = combined_psnr_spec(y, u, v);
            &&& sum >= 0 ==> 0 <= sum - 6 * c < 6
            &&& sum < 0 ==> 0 <= 6 * c - sum < 6
        }),
{
}

/// The two chroma planes weigh the same: swapping the U and V values
/// leaves the combined PSNR unchanged.
pub proof fn lemma_combined_symmetric_uv(y: i64, u: i64, v: i64)
    ensures
        combined_psnr_spec(y, u, v) == combined_psnr_spec(y, v, u),
{
}

/// Raising the V value by 6 or more, every plane finite and the weighted
/// sum staying on one side of zero, raises the combined PSNR.
pub proof fn lemma_combined_grows_with_v(y: i64, u: i64, v: i64, v2: i64)
    requires
        y != i64::MAX,
        u != i64::MAX,
        v != i64::MAX,
        v2 != i64::MAX,
        v + 6 <= v2,
        4 * y + u + v >= 0,
    ensures
        combined_psnr_spec(y, u, v) < combined_psnr_spec(y, u, v2),
{
}

/// Whether a plane's PSNR meets the threshold.
pub fn check_psnr_threshold(psnr_scaled: i64, threshold_db_scaled: i64) -> (r: bool)
    ensures
        r == (psnr_scaled >= threshold_db_scaled),
{
    psnr_scaled >= threshold_db_scaled
}

} // verus!
