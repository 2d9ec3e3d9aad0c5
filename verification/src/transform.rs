//! H.264 inverse transforms: the 4×4 integer IDCT, the 4×4 luma-DC Hadamard
//! and the 2×2 chroma-DC Hadamard, plus the post-IDCT `(x + 32) >> 6`.

use vstd::prelude::*;

use crate::DecodeError;

verus! {

// ─────────────────────────────────────────────────────────────────────
// Mathematical model
// ─────────────────────────────────────────────────────────────────────

/// Every value of `s` lies in the `i32` range.
pub open spec fn all_i32(s: Seq<int>) -> bool {
    forall|k: int| 0 <= k < s.len() ==> i32::MIN <= #[trigger] s[k] <= i32::MAX
}

/// The values of an `i32` sequence as integers.
pub open spec fn ints(s: Seq<i32>) -> Seq<int> {
    s.map_values(|x: i32| x as int)
}

/// The 1-D inverse butterfly of §8.5.12 (`>> 1` is floor division by 2).
pub open spec fn idct1(d0: int, d1: int, d2: int, d3: int) -> Seq<int> {
    let z0 = d0 + d2;
    let z1 = d0 - d2;
    let z2 = d1 / 2 - d3;
    let z3 = d1 + d3 / 2;
    seq![z0 + z3, z1 + z2, z1 - z2, z0 - z3]
}

/// The intermediate values of `idct1`, which must all fit in `i32`.
pub open spec fn idct1_steps(d0: int, d1: int, d2: int, d3: int) -> Seq<int> {
    let z0 = d0 + d2;
    let z1 = d0 - d2;
    let z2 = d1 / 2 - d3;
    let z3 = d1 + d3 / 2;
    seq![z0, z1, z2, z3] + idct1(d0, d1, d2, d3)
}

/// The 1-D Hadamard butterfly of §8.5.10.
pub open spec fn had1(d0: int, d1: int, d2: int, d3: int) -> Seq<int> {
    let z0 = d0 + d3;
    let z1 = d1 + d2;
    let z2 = d1 - d2;
    let z3 = d0 - d3;
    seq![z0 + z1, z3 + z2, z0 - z1, z3 - z2]
}

/// Every intermediate and final value of the 1-D Hadamard butterfly.
pub open spec fn had1_steps(d0: int, d1: int, d2: int, d3: int) -> Seq<int> {
    seq![d0 + d3, d1 + d2, d1 - d2, d0 - d3] + had1(d0, d1, d2, d3)
}

/// The 1-D inverse butterfly applied to each row of a 4×4 raster block.
pub open spec fn idct_rows(b: Seq<int>) -> Seq<int> {
    Seq::new(16, |k: int| idct1(b[4 * (k / 4)], b[4 * (k / 4) + 1], b[4 * (k / 4) + 2], b[4 * (k / 4) + 3])[k % 4])
}

/// The 1-D inverse butterfly applied to each column of a 4×4 raster block.
pub open spec fn idct_cols(b: Seq<int>) -> Seq<int> {
    Seq::new(16, |k: int| idct1(b[k % 4], b[4 + k % 4], b[8 + k % 4], b[12 + k % 4])[k / 4])
}

/// The 1-D Hadamard applied to each row of a 4×4 raster block.
pub open spec fn had_rows(b: Seq<int>) -> Seq<int> {
    Seq::new(16, |k: int| had1(b[4 * (k / 4)], b[4 * (k / 4) + 1], b[4 * (k / 4) + 2], b[4 * (k / 4) + 3])[k % 4])
}

/// The 1-D Hadamard applied to each column of a 4×4 raster block.
pub open spec fn had_cols(b: Seq<int>) -> Seq<int> {
    Seq::new(16, |k: int| had1(b[k % 4], b[4 + k % 4], b[8 + k % 4], b[12 + k % 4])[k / 4])
}

/// The 4×4 inverse transform of a raster block.
pub open spec fn idct4x4(b: Seq<int>) -> Seq<int> {
    idct_cols(idct_rows(b))
}

/// The 4×4 Hadamard of a raster block.
pub open spec fn had4x4(b: Seq<int>) -> Seq<int> {
    had_cols(had_rows(b))
}

/// Every intermediate value of the 4×4 inverse transform of `b` fits in `i32`.
pub open spec fn idct4x4_fits(b: Seq<int>) -> bool {
    let t = idct_rows(b);
    &&& forall|r: int| 0 <= r < 4 ==> all_i32(#[trigger] idct1_steps(b[4 * r], b[4 * r + 1], b[4 * r + 2], b[4 * r + 3]))
    &&& forall|c: int| 0 <= c < 4 ==> all_i32(#[trigger] idct1_steps(t[c], t[4 + c], t[8 + c], t[12 + c]))
}

/// Every intermediate value of the 4×4 Hadamard of `b` fits in `i32`.
pub open spec fn had4x4_fits(b: Seq<int>) -> bool {
    let t = had_rows(b);
    &&& forall|r: int| 0 <= r < 4 ==> all_i32(#[trigger] had1_steps(b[4 * r], b[4 * r + 1], b[4 * r + 2], b[4 * r + 3]))
    &&& forall|c: int| 0 <= c < 4 ==> all_i32(#[trigger] had1_steps(t[c], t[4 + c], t[8 + c], t[12 + c]))
}

/// The 2×2 Hadamard of `[c00, c01, c10, c11]`.
pub open spec fn had2x2(b: Seq<int>) -> Seq<int> {
    let r00 = b[0] + b[1];
    let r01 = b[0] - b[1];
    let r10 = b[2] + b[3];
    let r11 = b[2] - b[3];
    seq![r00 + r10, r01 + r11, r00 - r10, r01 - r11]
}

/// Every intermediate value of the 2×2 Hadamard of `b` fits in `i32`.
pub open spec fn had2x2_fits(b: Seq<int>) -> bool {
    let r00 = b[0] + b[1];
    let r01 = b[0] - b[1];
    let r10 = b[2] + b[3];
    let r11 = b[2] - b[3];
    all_i32(seq![r00, r01, r10, r11] + had2x2(b))
}

/// `(x + 32) >> 6`, that is `floor((x + 32) / 64)`.
pub open spec fn round6(x: int) -> int {
    (x + 32) / 64
}

// ─────────────────────────────────────────────────────────────────────
// Arithmetic shift facts
// ─────────────────────────────────────────────────────────────────────

/// An arithmetic shift right by one is floor division by two.
pub proof fn lemma_asr1(x: i32)
    ensures
        (x >> 1i32) as int == x as int / 2,
{
    assert(x >= 0 ==> (x >> 1i32) == x / 2) by (bit_vector);
    assert(x < 0 ==> (x >> 1i32) == -((-(x as int) + 1) / 2) as i32) by (bit_vector);
}

proof fn lemma_asr6(x: i32)
    ensures
        (x >> 6i32) as int == x as int / 64,
{
    assert(x >= 0 ==> (x >> 6i32) == x / 64) by (bit_vector);
    assert(x < 0 ==> (x >> 6i32) == -((-(x as int) + 63) / 64) as i32) by (bit_vector);
}

// ─────────────────────────────────────────────────────────────────────
// Executable transforms
// ─────────────────────────────────────────────────────────────────────

/// The 1-D inverse butterfly.
pub fn idct_1d(d: [i32; 4]) -> (f: [i32; 4])
    requires
        all_i32(idct1_steps(d[0] as int, d[1] as int, d[2] as int, d[3] as int)),
    ensures
        ints(f@) == idct1(d[0] as int, d[1] as int, d[2] as int, d[3] as int),
{
    proof {
        lemma_asr1(d[1]);
        lemma_asr1(d[3]);
    }
    let ghost st = idct1_steps(d[0] as int, d[1] as int, d[2] as int, d[3] as int);
    assert(i32::MIN <= st[0] <= i32::MAX && i32::MIN <= st[1] <= i32::MAX);
    assert(i32::MIN <= st[2] <= i32::MAX && i32::MIN <= st[3] <= i32::MAX);
    assert(i32::MIN <= st[4] <= i32::MAX && i32::MIN <= st[5] <= i32::MAX);
    assert(i32::MIN <= st[6] <= i32::MAX && i32::MIN <= st[7] <= i32::MAX);
    let z0 = d[0] + d[2];
    let z1 = d[0] - d[2];
    let z2 = (d[1] >> 1) - d[3];
    let z3 = d[1] + (d[3] >> 1);
    let f = [z0 + z3, z1 + z2, z1 - z2, z0 - z3];
    assert(ints(f@) =~= idct1(d[0] as int, d[1] as int, d[2] as int, d[3] as int));
    f
}

/// The 1-D Hadamard butterfly.
pub fn hadamard_1d_4(d: [i32; 4]) -> (f: [i32; 4])
    requires
        all_i32(had1_steps(d[0] as int, d[1] as int, d[2] as int, d[3] as int)),
    ensures
        ints(f@) == had1(d[0] as int, d[1] as int, d[2] as int, d[3] as int),
{
    let ghost st = had1_steps(d[0] as int, d[1] as int, d[2] as int, d[3] as int);
    assert(i32::MIN <= st[0] <= i32::MAX && i32::MIN <= st[1] <= i32::MAX);
    assert(i32::MIN <= st[2] <= i32::MAX && i32::MIN <= st[3] <= i32::MAX);
    assert(i32::MIN <= st[4] <= i32::MAX && i32::MIN <= st[5] <= i32::MAX);
    assert(i32::MIN <= st[6] <= i32::MAX && i32::MIN <= st[7] <= i32::MAX);
    let z0 = d[0] + d[3];
    let z1 = d[1] + d[2];
    let z2 = d[1] - d[2];
    let z3 = d[0] - d[3];
    let f = [z0 + z1, z3 + z2, z0 - z1, z3 - z2];
    assert(ints(f@) =~= had1(d[0] as int, d[1] as int, d[2] as int, d[3] as int));
    f
}

/// Inverse 4×4 integer transform of a raster block (rows, then columns).
pub fn idct_4x4(block: &[i32; 16]) -> (out: [i32; 16])
    requires
        idct4x4_fits(ints(block@)),
    ensures
        ints(out@) == idct4x4(ints(block@)),
{
    let ghost b = ints(block@);
    let ghost t = idct_rows(b);
    let mut tmp = [0i32; 16];
    for r in 0..4usize
        invariant
            b == ints(block@),
            t == idct_rows(b),
            idct4x4_fits(b),
            forall|k: int| 0 <= k < 4 * r ==> tmp[k] as int == #[trigger] t[k],
    {
        let row = [block[4 * r], block[4 * r + 1], block[4 * r + 2], block[4 * r + 3]];
        assert(idct1_steps(b[4 * r], b[4 * r + 1], b[4 * r + 2], b[4 * r + 3]) == idct1_steps(
            row[0] as int, row[1] as int, row[2] as int, row[3] as int));
        let f = idct_1d(row);
        tmp[4 * r] = f[0];
        tmp[4 * r + 1] = f[1];
        tmp[4 * r + 2] = f[2];
        tmp[4 * r + 3] = f[3];
        assert forall|k: int| 0 <= k < 4 * (r + 1) implies tmp[k] as int == #[trigger] t[k] by {
            if k >= 4 * r {
                assert(k / 4 == r);
                assert(ints(f@)[k % 4] == f[k % 4] as int);
            }
        }
    }
    let mut out = [0i32; 16];
    for c in 0..4usize
        invariant
            b == ints(block@),
            t == idct_rows(b),
            idct4x4_fits(b),
            forall|k: int| 0 <= k < 16 ==> tmp[k] as int == #[trigger] t[k],
            forall|k: int| 0 <= k < 16 && k % 4 < c ==> out[k] as int == #[trigger] idct4x4(b)[k],
    {
        let col = [tmp[c], tmp[4 + c], tmp[8 + c], tmp[12 + c]];
        assert(idct1_steps(t[c as int], t[4 + c], t[8 + c], t[12 + c]) == idct1_steps(
            col[0] as int, col[1] as int, col[2] as int, col[3] as int));
        let f = idct_1d(col);
        out[c] = f[0];
        out[4 + c] = f[1];
        out[8 + c] = f[2];
        out[12 + c] = f[3];
        assert forall|k: int| 0 <= k < 16 && k % 4 < c + 1 implies out[k] as int == #[trigger] idct4x4(b)[k] by {
            if k % 4 == c {
                assert(ints(f@)[k / 4] == f[k / 4] as int);
            }
        }
    }
    assert(ints(out@) =~= idct4x4(b));
    out
}

/// `(x + 32) >> 6` on every entry, in place.
pub fn round_shift_6(block: &mut [i32; 16])
    requires
        forall|k: int| 0 <= k < 16 ==> #[trigger] old(block)[k] <= i32::MAX - 32,
    ensures
        forall|k: int| 0 <= k < 16 ==> #[trigger] final(block)[k] as int == round6(old(block)[k] as int),
{
    for k in 0..16usize
        invariant
            forall|j: int| k <= j < 16 ==> #[trigger] block[j] == old(block)[j],
            forall|j: int| 0 <= j < k ==> #[trigger] block[j] as int == round6(old(block)[j] as int),
            forall|j: int| 0 <= j < 16 ==> #[trigger] old(block)[j] <= i32::MAX - 32,
    {
        let v = block[k] + 32;
        proof { lemma_asr6(v); }
        block[k] = v >> 6;
    }
}

/// 4×4 Hadamard of the sixteen luma DC values of an Intra_16x16 macroblock.
pub fn hadamard_4x4(block: &[i32; 16]) -> (out: [i32; 16])
    requires
        had4x4_fits(ints(block@)),
    ensures
        ints(out@) == had4x4(ints(block@)),
{
    let ghost b = ints(block@);
    let ghost t = had_rows(b);
    let mut tmp = [0i32; 16];
    for r in 0..4usize
        invariant
            b == ints(block@),
            t == had_rows(b),
            had4x4_fits(b),
            forall|k: int| 0 <= k < 4 * r ==> tmp[k] as int == #[trigger] t[k],
    {
        let row = [block[4 * r], block[4 * r + 1], block[4 * r + 2], block[4 * r + 3]];
        assert(had1_steps(b[4 * r], b[4 * r + 1], b[4 * r + 2], b[4 * r + 3]) == had1_steps(
            row[0] as int, row[1] as int, row[2] as int, row[3] as int));
        let f = hadamard_1d_4(row);
        tmp[4 * r] = f[0];
        tmp[4 * r + 1] = f[1];
        tmp[4 * r + 2] = f[2];
        tmp[4 * r + 3] = f[3];
        assert forall|k: int| 0 <= k < 4 * (r + 1) implies tmp[k] as int == #[trigger] t[k] by {
            if k >= 4 * r {
                assert(k / 4 == r);
                assert(ints(f@)[k % 4] == f[k % 4] as int);
            }
        }
    }
    let mut out = [0i32; 16];
    for c in 0..4usize
        invariant
            b == ints(block@),
            t == had_rows(b),
            had4x4_fits(b),
            forall|k: int| 0 <= k < 16 ==> tmp[k] as int == #[trigger] t[k],
            forall|k: int| 0 <= k < 16 && k % 4 < c ==> out[k] as int == #[trigger] had4x4(b)[k],
    {
        let col = [tmp[c], tmp[4 + c], tmp[8 + c], tmp[12 + c]];
        assert(had1_steps(t[c as int], t[4 + c], t[8 + c], t[12 + c]) == had1_steps(
            col[0] as int, col[1] as int, col[2] as int, col[3] as int));
        let f = hadamard_1d_4(col);
        out[c] = f[0];
        out[4 + c] = f[1];
        out[8 + c] = f[2];
        out[12 + c] = f[3];
        assert forall|k: int| 0 <= k < 16 && k % 4 < c + 1 implies out[k] as int == #[trigger] had4x4(b)[k] by {
            if k % 4 == c {
                assert(ints(f@)[k / 4] == f[k / 4] as int);
            }
        }
    }
    assert(ints(out@) =~= had4x4(b));
    out
}

/// 2×2 Hadamard of the four chroma DC values `[c00, c01, c10, c11]`.
pub fn hadamard_2x2(block: &[i32; 4]) -> (out: [i32; 4])
    requires
        had2x2_fits(ints(block@)),
    ensures
        ints(out@) == had2x2(ints(block@)),
{
    let ghost b = ints(block@);
    let ghost st = seq![b[0] + b[1], b[0] - b[1], b[2] + b[3], b[2] - b[3]] + had2x2(b);
    assert(forall|k: int| 0 <= k < 8 ==> i32::MIN <= #[trigger] st[k] <= i32::MAX);
    assert(i32::MIN <= st[0] <= i32::MAX && i32::MIN <= st[1] <= i32::MAX);
    assert(i32::MIN <= st[2] <= i32::MAX && i32::MIN <= st[3] <= i32::MAX);
    assert(i32::MIN <= st[4] <= i32::MAX && i32::MIN <= st[5] <= i32::MAX);
    assert(i32::MIN <= st[6] <= i32::MAX && i32::MIN <= st[7] <= i32::MAX);
    let r0 = [block[0] + block[1], block[0] - block[1]];
    let r1 = [block[2] + block[3], block[2] - block[3]];
    let out = [r0[0] + r1[0], r0[1] + r1[1], r0[0] - r1[0], r0[1] - r1[1]];
    assert(ints(out@) =~= had2x2(b));
    out
}

/// The inverse transform followed by `(x + 32) >> 6`: the residual samples
/// of a dequantized 4×4 block. Never fails.
pub fn idct_4x4_with_scaling(block: &[i32; 16]) -> (res: Result<[i32; 16], DecodeError>)
    requires
        idct4x4_fits(ints(block@)),
        forall|k: int| 0 <= k < 16 ==> #[trigger] idct4x4(ints(block@))[k] <= i32::MAX - 32,
    ensures
        res is Ok,
        res matches Ok(r) ==> forall|k: int| 0 <= k < 16 ==> #[trigger] r[k] as int == round6(
            idct4x4(ints(block@))[k]),
{
    let mut residual = idct_4x4(block);
    assert forall|k: int| 0 <= k < 16 implies #[trigger] residual[k] <= i32::MAX - 32 by {
        assert(ints(residual@)[k] == residual[k] as int);
    }
    let ghost before = residual;
    round_shift_6(&mut residual);
    assert forall|k: int| 0 <= k < 16 implies #[trigger] residual[k] as int == round6(
        idct4x4(ints(block@))[k]) by {
        assert(ints(before@)[k] == before[k] as int);
    }
    Ok(residual)
}

// ─────────────────────────────────────────────────────────────────────
// Laws
// ─────────────────────────────────────────────────────────────────────

proof fn lemma_had1_twice(x0: int, x1: int, x2: int, x3: int)
    ensures
        ({
            let h = had1(x0, x1, x2, x3);
            had1(h[0], h[1], h[2], h[3]) == seq![4 * x0, 4 * x1, 4 * x2, 4 * x3]
        }),
{
    let h = had1(x0, x1, x2, x3);
    assert(had1(h[0], h[1], h[2], h[3]) =~= seq![4 * x0, 4 * x1, 4 * x2, 4 * x3]);
}

proof fn lemma_had_entry_commute(b: Seq<int>, r: int, c: int)
    requires
        b.len() == 16,
        0 <= r < 4,
        0 <= c < 4,
    ensures
        had_rows(had_cols(b))[4 * r + c] == had_cols(had_rows(b))[4 * r + c],
{
    let k = 4 * r + c;
    assert(k / 4 == r && k % 4 == c);
    let hc = had_cols(b);
    let hr = had_rows(b);
    assert((4 * r + 1) / 4 == r && (4 * r + 1) % 4 == 1);
    assert((4 * r + 2) / 4 == r && (4 * r + 2) % 4 == 2);
    assert((4 * r + 3) / 4 == r && (4 * r + 3) % 4 == 3);
    assert((4 * r) / 4 == r && (4 * r) % 4 == 0);
    assert(c / 4 == 0 && c % 4 == c);
    assert((4 + c) / 4 == 1 && (4 + c) % 4 == c);
    assert((8 + c) / 4 == 2 && (8 + c) % 4 == c);
    assert((12 + c) / 4 == 3 && (12 + c) % 4 == c);
    assert(had_rows(hc)[k] == had1(hc[4 * r], hc[4 * r + 1], hc[4 * r + 2], hc[4 * r + 3])[c]);
    assert(had_cols(hr)[k] == had1(hr[c], hr[4 + c], hr[8 + c], hr[12 + c])[r]);
}

proof fn lemma_had_rows_cols_commute(b: Seq<int>)
    requires
        b.len() == 16,
    ensures
        had_rows(had_cols(b)) == had_cols(had_rows(b)),
{
    assert forall|k: int| 0 <= k < 16 implies #[trigger] had_rows(had_cols(b))[k] == had_cols(had_rows(b))[k] by {
        lemma_had_entry_commute(b, k / 4, k % 4);
    }
    assert(had_rows(had_cols(b)) =~= had_cols(had_rows(b)));
}

proof fn lemma_had_rows_twice(b: Seq<int>)
    requires
        b.len() == 16,
    ensures
        had_rows(had_rows(b)) == b.map_values(|x: int| 4 * x),
{
    assert forall|k: int| 0 <= k < 16 implies #[trigger] had_rows(had_rows(b))[k] == 4 * b[k] by {
        let r = k / 4;
        lemma_had1_twice(b[4 * r], b[4 * r + 1], b[4 * r + 2], b[4 * r + 3]);
    }
    assert(had_rows(had_rows(b)) =~= b.map_values(|x: int| 4 * x));
}

proof fn lemma_had_cols_twice(b: Seq<int>)
    requires
        b.len() == 16,
    ensures
        had_cols(had_cols(b)) == b.map_values(|x: int| 4 * x),
{
    assert forall|k: int| 0 <= k < 16 implies #[trigger] had_cols(had_cols(b))[k] == 4 * b[k] by {
        let c = k % 4;
        lemma_had1_twice(b[c], b[4 + c], b[8 + c], b[12 + c]);
    }
    assert(had_cols(had_cols(b)) =~= b.map_values(|x: int| 4 * x));
}

/// The 4×4 Hadamard is its own inverse up to a factor of 16.
#[verifier::rlimit(30)]
pub proof fn lemma_hadamard_4x4_self_inverse(b: Seq<int>)
    requires
        b.len() == 16,
    ensures
        had4x4(had4x4(b)) == b.map_values(|x: int| 16 * x),
{
    let r = had_rows(b);
    lemma_had_rows_cols_commute(had_cols(r));
    lemma_had_rows_cols_commute(r);
    // had4x4(had4x4(b)) = C(R(C(R b))) = C(C(R(R b)))
    assert(had_rows(had_cols(r)) == had_cols(had_rows(r)));
    lemma_had_rows_twice(b);
    let q = b.map_values(|x: int| 4 * x);
    lemma_had_cols_twice(q);
    assert(had4x4(had4x4(b)) == had_cols(had_cols(had_rows(r))));
    assert(had_cols(had_cols(q)) =~= b.map_values(|x: int| 16 * x));
}

/// The 2×2 Hadamard is its own inverse up to a factor of 4.
pub proof fn lemma_hadamard_2x2_self_inverse(b: Seq<int>)
    requires
        b.len() == 4,
    ensures
        had2x2(had2x2(b)) == b.map_values(|x: int| 4 * x),
{
    assert(had2x2(had2x2(b)) =~= b.map_values(|x: int| 4 * x));
}

/// The 1-D inverse butterfly is the matrix of §8.5.12 with rows
/// (1, 1, 1, ½), (1, ½, −1, −1), (1, −½, −1, 1), (1, −1, 1, −½): exactly so
/// (here doubled) when the odd inputs `d1` and `d3` are even, so that the
/// halvings lose nothing.
pub proof fn lemma_idct1_matrix(d0: int, d1: int, d2: int, d3: int)
    requires
        d1 % 2 == 0,
        d3 % 2 == 0,
    ensures
        2 * idct1(d0, d1, d2, d3)[0] == 2 * d0 + 2 * d1 + 2 * d2 + d3,
        2 * idct1(d0, d1, d2, d3)[1] == 2 * d0 + d1 - 2 * d2 - 2 * d3,
        2 * idct1(d0, d1, d2, d3)[2] == 2 * d0 - d1 - 2 * d2 + 2 * d3,
        2 * idct1(d0, d1, d2, d3)[3] == 2 * d0 - 2 * d1 + 2 * d2 - d3,
{
}

/// The 1-D Hadamard is the matrix with rows (1, 1, 1, 1), (1, 1, −1, −1),
/// (1, −1, −1, 1), (1, −1, 1, −1) (§8.5.10).
pub proof fn lemma_had1_matrix(d0: int, d1: int, d2: int, d3: int)
    ensures
        had1(d0, d1, d2, d3)[0] == d0 + d1 + d2 + d3,
        had1(d0, d1, d2, d3)[1] == d0 + d1 - d2 - d3,
        had1(d0, d1, d2, d3)[2] == d0 - d1 - d2 + d3,
        had1(d0, d1, d2, d3)[3] == d0 - d1 + d2 - d3,
{
}

/// The 2×2 chroma DC transform of `[c00, c01, c10, c11]` is
/// `[[1, 1], [1, −1]] · c · [[1, 1], [1, −1]]` (§8.5.11.1).
pub proof fn lemma_had2x2_matrix(b: Seq<int>)
    requires
        b.len() == 4,
    ensures
        had2x2(b)[0] == b[0] + b[1] + b[2] + b[3],
        had2x2(b)[1] == b[0] - b[1] + b[2] - b[3],
        had2x2(b)[2] == b[0] + b[1] - b[2] - b[3],
        had2x2(b)[3] == b[0] - b[1] - b[2] + b[3],
{
}

/// A block whose only non-zero coefficient is the DC `c` inverse-transforms
/// to the constant block `c`.
pub proof fn lemma_idct_dc_only(b: Seq<int>, c: int)
    requires
        b.len() == 16,
        b[0] == c,
        forall|k: int| 1 <= k < 16 ==> b[k] == 0,
    ensures
        idct4x4(b) == Seq::new(16, |k: int| c),
{
    assert(idct4x4(b) =~= Seq::new(16, |k: int| c));
}

/// Every step of the 1-D inverse butterfly of inputs bounded by `b` is
/// bounded by `4 * b`.
proof fn lemma_idct1_bound(d0: int, d1: int, d2: int, d3: int, b: int)
    requires
        2 <= b,
        -b <= d0 <= b,
        -b <= d1 <= b,
        -b <= d2 <= b,
        -b <= d3 <= b,
    ensures
        forall|k: int| 0 <= k < 8 ==> -4 * b <= #[trigger] idct1_steps(d0, d1, d2, d3)[k] <= 4 * b,
{
    let st = idct1_steps(d0, d1, d2, d3);
    assert(-b / 2 - 1 <= d1 / 2 <= b / 2);
    assert(-b / 2 - 1 <= d3 / 2 <= b / 2);
    assert forall|k: int| 0 <= k < 8 implies -4 * b <= #[trigger] st[k] <= 4 * b by {}
}

/// A 4×4 block whose coefficients are bounded by `b` (at most 2^26)
/// inverse-transforms without leaving `i32`, to values bounded by `16 * b`.
pub proof fn lemma_idct4x4_bounded(blk: Seq<int>, b: int)
    requires
        blk.len() == 16,
        2 <= b <= 0x400_0000,
        forall|k: int| 0 <= k < 16 ==> -b <= #[trigger] blk[k] <= b,
    ensures
        idct4x4_fits(blk),
        forall|k: int| 0 <= k < 16 ==> -16 * b <= #[trigger] idct4x4(blk)[k] <= 16 * b,
{
    let t = idct_rows(blk);
    assert forall|r: int| 0 <= r < 4 implies all_i32(#[trigger] idct1_steps(blk[4 * r], blk[4 * r + 1], blk[4 * r + 2], blk[4 * r + 3])) by {
        lemma_idct1_bound(blk[4 * r], blk[4 * r + 1], blk[4 * r + 2], blk[4 * r + 3], b);
    }
    assert forall|k: int| 0 <= k < 16 implies -4 * b <= #[trigger] t[k] <= 4 * b by {
        let r = k / 4;
        lemma_idct1_bound(blk[4 * r], blk[4 * r + 1], blk[4 * r + 2], blk[4 * r + 3], b);
        assert(idct1_steps(blk[4 * r], blk[4 * r + 1], blk[4 * r + 2], blk[4 * r + 3])[4 + k % 4]
            == idct1(blk[4 * r], blk[4 * r + 1], blk[4 * r + 2], blk[4 * r + 3])[k % 4]);
    }
    assert forall|c: int| 0 <= c < 4 implies all_i32(#[trigger] idct1_steps(t[c], t[4 + c], t[8 + c], t[12 + c])) by {
        lemma_idct1_bound(t[c], t[4 + c], t[8 + c], t[12 + c], 4 * b);
    }
    assert forall|k: int| 0 <= k < 16 implies -16 * b <= #[trigger] idct4x4(blk)[k] <= 16 * b by {
        let c = k % 4;
        lemma_idct1_bound(t[c], t[4 + c], t[8 + c], t[12 + c], 4 * b);
        assert(idct1_steps(t[c], t[4 + c], t[8 + c], t[12 + c])[4 + k / 4]
            == idct1(t[c], t[4 + c], t[8 + c], t[12 + c])[k / 4]);
    }
}

} // verus!
