//! The BlockQuant toy codec: each 8×8 block of a YUV 4:2:0 frame is
//! centred, transformed with the unnormalised 2-D Walsh–Hadamard
//! transform and uniformly quantised; decoding dequantises, applies the
//! same transform, divides by 64 with rounding, de-centres and clamps.
//! At QP 0 the round trip is exact.

use vstd::prelude::*;
use crate::bytes::{le_bytes, push_le};
use vstd::arithmetic::div_mod::{lemma_fundamental_div_mod, lemma_fundamental_div_mod_converse};

verus! {

// ─────────────────────────────────────────────────────────────────────
// Types
// ─────────────────────────────────────────────────────────────────────

/// One YUV 4:2:0 frame.
#[derive(Clone, Debug, PartialEq)]
pub struct YuvFrame {
    pub width: u16,
    pub height: u16,
    pub y: Vec<u8>,
    pub u: Vec<u8>,
    pub v: Vec<u8>,
}

/// BlockQuant stream header.
#[derive(Clone, Debug, PartialEq)]
pub struct BqHeader {
    pub width: u16,
    pub height: u16,
    pub qp: u8,
    /// Always 1 (4:2:0).
    pub chroma_format: u8,
}

/// A compressed frame: header and the three planes' coefficients, each in
/// block-raster order.
#[derive(Clone, Debug, PartialEq)]
pub struct BqBitstream {
    pub header: BqHeader,
    pub coeffs_y: Vec<i16>,
    pub coeffs_u: Vec<i16>,
    pub coeffs_v: Vec<i16>,
}

/// Errors of the toy codec.
#[derive(Clone, Copy, Debug, PartialEq, Eq)]
pub enum ToyCodecError {
    InvalidDimensions,
    InvalidChromaFormat,
    BufferTooSmall,
    CoefficientOverflow,
    Unsupported,
}

impl ToyCodecError {
    /// A one-line description of the error.
    pub fn message(&self) -> (s: &'static str)
        ensures
            match *self {
                ToyCodecError::InvalidDimensions => s@ == "frame dimensions must be multiples of 16"@,
                ToyCodecError::InvalidChromaFormat => s@ == "only 4:2:0 chroma format is supported"@,
                ToyCodecError::BufferTooSmall => s@ == "coefficient buffer size doesn't match frame dimensions"@,
                ToyCodecError::CoefficientOverflow => s@ == "coefficient value out of range"@,
                ToyCodecError::Unsupported => s@ == "unsupported codec parameter"@,
            },
    {
        match self {
            ToyCodecError::InvalidDimensions => "frame dimensions must be multiples of 16",
            ToyCodecError::InvalidChromaFormat => "only 4:2:0 chroma format is supported",
            ToyCodecError::BufferTooSmall => "coefficient buffer size doesn't match frame dimensions",
            ToyCodecError::CoefficientOverflow => "coefficient value out of range",
            ToyCodecError::Unsupported => "unsupported codec parameter",
        }
    }
}

// ─────────────────────────────────────────────────────────────────────
// The Walsh–Hadamard transform
// ─────────────────────────────────────────────────────────────────────

/// Entry `k` of the 8-point unnormalised Walsh–Hadamard transform of `v`:
/// the signed sum of `v` with row `k` of the natural-order Hadamard
/// matrix (sign −1 where `k & j` has an odd number of set bits).
pub open spec fn wht8_at(v: Seq<int>, k: int) -> int {
    if k == 0 {
        v[0] + v[1] + v[2] + v[3] + v[4] + v[5] + v[6] + v[7]
    } else if k == 1 {
        v[0] - v[1] + v[2] - v[3] + v[4] - v[5] + v[6] - v[7]
    } else if k == 2 {
        v[0] + v[1] - v[2] - v[3] + v[4] + v[5] - v[6] - v[7]
    } else if k == 3 {
        v[0] - v[1] - v[2] + v[3] + v[4] - v[5] - v[6] + v[7]
    } else if k == 4 {
        v[0] + v[1] + v[2] + v[3] - v[4] - v[5] - v[6] - v[7]
    } else if k == 5 {
        v[0] - v[1] + v[2] - v[3] - v[4] + v[5] - v[6] + v[7]
    } else if k == 6 {
        v[0] + v[1] - v[2] - v[3] - v[4] - v[5] + v[6] + v[7]
    } else {
        v[0] - v[1] - v[2] + v[3] - v[4] + v[5] + v[6] - v[7]
    }
}

/// The 8-point transform of `v`.
pub open spec fn wht8_spec(v: Seq<int>) -> Seq<int> {
    Seq::new(8, |k: int| wht8_at(v, k))
}

/// Row `r` of an 8×8 raster block.
pub open spec fn row_of(b: Seq<int>, r: int) -> Seq<int> {
    Seq::new(8, |c: int| b[8 * r + c])
}

/// Column `c` of an 8×8 raster block.
pub open spec fn col_of(b: Seq<int>, c: int) -> Seq<int> {
    Seq::new(8, |r: int| b[8 * r + c])
}

/// The 1-D transform applied to every row.
#[verifier::opaque]
pub open spec fn wht_rows(b: Seq<int>) -> Seq<int> {
    Seq::new(64, |k: int| wht8_at(row_of(b, k / 8), k % 8))
}

/// The 1-D transform applied to every column.
#[verifier::opaque]
pub open spec fn wht_cols(b: Seq<int>) -> Seq<int> {
    Seq::new(64, |k: int| wht8_at(col_of(b, k % 8), k / 8))
}

/// The 2-D 8×8 transform: rows, then columns.
pub open spec fn wht8x8_spec(b: Seq<int>) -> Seq<int> {
    wht_cols(wht_rows(b))
}

/// The values of an `i32` sequence as integers.
pub open spec fn ints32(s: Seq<i32>) -> Seq<int> {
    s.map_values(|x: i32| x as int)
}

/// Every value lies within `±bound`.
pub open spec fn bounded_by(s: Seq<int>, bound: int) -> bool {
    forall|k: int| 0 <= k < s.len() ==> -bound <= #[trigger] s[k] <= bound
}

/// The 8-point transform applied twice scales by 8.
pub proof fn lemma_wht8_self_inverse(v: Seq<int>)
    requires
        v.len() == 8,
    ensures
        wht8_spec(wht8_spec(v)) == Seq::new(8, |k: int| 8 * v[k]),
{
    let w = wht8_spec(v);
    assert forall|k: int| 0 <= k < 8 implies #[trigger] wht8_at(w, k) == 8 * v[k] by {
        assert(w[0] == wht8_at(v, 0) && w[1] == wht8_at(v, 1) && w[2] == wht8_at(v, 2) && w[3] == wht8_at(v, 3));
        assert(w[4] == wht8_at(v, 4) && w[5] == wht8_at(v, 5) && w[6] == wht8_at(v, 6) && w[7] == wht8_at(v, 7));
    }
    assert(wht8_spec(w) =~= Seq::new(8, |k: int| 8 * v[k]));
}

#[verifier::rlimit(40)]
proof fn lemma_commute_at(b: Seq<int>, r: int, c: int)
    requires
        b.len() == 64,
        0 <= r < 8,
        0 <= c < 8,
    ensures
        wht8_at(row_of(wht_cols(b), r), c) == wht8_at(col_of(wht_rows(b), c), r),
{
    reveal(wht_cols);
    reveal(wht_rows);
    let cc = wht_cols(b);
    let rr = wht_rows(b);
    let x = row_of(cc, r);
    let y = col_of(rr, c);
    assert forall|j: int| 0 <= j < 8 implies #[trigger] x[j] == wht8_at(col_of(b, j), r) by {
        assert((8 * r + j) % 8 == j && (8 * r + j) / 8 == r);
    }
    assert forall|i: int| 0 <= i < 8 implies #[trigger] y[i] == wht8_at(row_of(b, i), c) by {
        assert((8 * i + c) % 8 == c && (8 * i + c) / 8 == i);
    }
    assert forall|i: int, j: int| 0 <= i < 8 && 0 <= j < 8 implies #[trigger] col_of(b, j)[i] == #[trigger] row_of(b, i)[j] by {}
}

/// Row and column transforms commute.
pub proof fn lemma_wht_rows_cols_commute(b: Seq<int>)
    requires
        b.len() == 64,
    ensures
        wht_rows(wht_cols(b)) == wht_cols(wht_rows(b)),
{
    reveal(wht_cols);
    reveal(wht_rows);
    assert forall|k: int| 0 <= k < 64 implies #[trigger] wht_rows(wht_cols(b))[k] == wht_cols(wht_rows(b))[k] by {
        lemma_commute_at(b, k / 8, k % 8);
    }
    assert(wht_rows(wht_cols(b)) =~= wht_cols(wht_rows(b)));
}

/// Applying the row transform twice scales by 8.
proof fn lemma_wht_rows_twice(b: Seq<int>)
    requires
        b.len() == 64,
    ensures
        wht_rows(wht_rows(b)) == Seq::new(64, |k: int| 8 * b[k]),
{
    reveal(wht_rows);
    assert forall|k: int| 0 <= k < 64 implies #[trigger] wht_rows(wht_rows(b))[k] == 8 * b[k] by {
        let r = k / 8;
        let rr = wht_rows(b);
        assert forall|c: int| 0 <= c < 8 implies #[trigger] row_of(rr, r)[c] == wht8_spec(row_of(b, r))[c] by {
            assert((8 * r + c) / 8 == r && (8 * r + c) % 8 == c);
        }
        assert(row_of(rr, r) =~= wht8_spec(row_of(b, r)));
        lemma_wht8_self_inverse(row_of(b, r));
        assert(wht8_spec(wht8_spec(row_of(b, r)))[k % 8] == 8 * row_of(b, r)[k % 8]);
    }
    assert(wht_rows(wht_rows(b)) =~= Seq::new(64, |k: int| 8 * b[k]));
}

/// Applying the column transform twice scales by 8.
proof fn lemma_wht_cols_twice(b: Seq<int>)
    requires
        b.len() == 64,
    ensures
        wht_cols(wht_cols(b)) == Seq::new(64, |k: int| 8 * b[k]),
{
    reveal(wht_cols);
    assert forall|k: int| 0 <= k < 64 implies #[trigger] wht_cols(wht_cols(b))[k] == 8 * b[k] by {
        let c = k % 8;
        let cc = wht_cols(b);
        assert forall|r: int| 0 <= r < 8 implies #[trigger] col_of(cc, c)[r] == wht8_spec(col_of(b, c))[r] by {
            assert((8 * r + c) / 8 == r && (8 * r + c) % 8 == c);
        }
        assert(col_of(cc, c) =~= wht8_spec(col_of(b, c)));
        lemma_wht8_self_inverse(col_of(b, c));
        assert(wht8_spec(wht8_spec(col_of(b, c)))[k / 8] == 8 * col_of(b, c)[k / 8]);
        assert(k == 8 * (k / 8) + c);
    }
    assert(wht_cols(wht_cols(b)) =~= Seq::new(64, |k: int| 8 * b[k]));
}

proof fn lemma_wht_lens(b: Seq<int>)
    ensures
        wht_rows(b).len() == 64,
        wht_cols(b).len() == 64,
{
    reveal(wht_rows);
    reveal(wht_cols);
}

/// The 2-D transform applied twice scales by 64.
pub proof fn lemma_wht8x8_self_inverse(b: Seq<int>)
    requires
        b.len() == 64,
    ensures
        wht8x8_spec(wht8x8_spec(b)) == Seq::new(64, |k: int| 64 * b[k]),
{
    let r = wht_rows(b);
    lemma_wht_lens(b);
    lemma_wht_lens(r);
    let w = wht_cols(r);
    assert(wht8x8_spec(b) == w);
    assert(wht8x8_spec(w) == wht_cols(wht_rows(w)));
    lemma_wht_rows_cols_commute(r);
    let r2 = wht_rows(r);
    assert(wht_rows(w) == wht_cols(r2));
    lemma_wht_rows_twice(b);
    let s8 = Seq::new(64, |k: int| 8 * b[k]);
    assert(r2 == s8);
    lemma_wht_cols_twice(s8);
    assert(Seq::new(64, |k: int| 8 * s8[k]) =~= Seq::new(64, |k: int| 64 * b[k]));
}

/// Every entry of the 8-point transform of values within `±b` lies
/// within `±8b`.
proof fn lemma_wht8_at_bound(v: Seq<int>, b: int, k: int)
    requires
        v.len() == 8,
        bounded_by(v, b),
        0 <= k < 8,
    ensures
        -8 * b <= wht8_at(v, k) <= 8 * b,
{
    assert(-b <= v[0] <= b && -b <= v[1] <= b && -b <= v[2] <= b && -b <= v[3] <= b);
    assert(-b <= v[4] <= b && -b <= v[5] <= b && -b <= v[6] <= b && -b <= v[7] <= b);
}

/// The 2-D transform of values within `±b` stays within `±64b`.
pub proof fn lemma_wht8x8_bound(x: Seq<int>, b: int)
    requires
        x.len() == 64,
        bounded_by(x, b),
    ensures
        bounded_by(wht8x8_spec(x), 64 * b),
        wht8x8_spec(x).len() == 64,
{
    reveal(wht_rows);
    reveal(wht_cols);
    let r = wht_rows(x);
    assert forall|k: int| 0 <= k < 64 implies -8 * b <= #[trigger] r[k] <= 8 * b by {
        let rw = row_of(x, k / 8);
        assert(bounded_by(rw, b));
        lemma_wht8_at_bound(rw, b, k % 8);
    }
    assert forall|k: int| 0 <= k < 64 implies -64 * b <= #[trigger] wht8x8_spec(x)[k] <= 64 * b by {
        let cl = col_of(r, k % 8);
        assert(bounded_by(cl, 8 * b));
        lemma_wht8_at_bound(cl, 8 * b, k / 8);
    }
}

// ─────────────────────────────────────────────────────────────────────
// Executable transform
// ─────────────────────────────────────────────────────────────────────

/// Quantisation step for `qp`: 1 at QP 0, else the QP itself.
pub open spec fn quant_step_spec(qp: u8) -> int {
    if qp == 0 { 1 } else { qp as int }
}

/// The quantisation step for `qp`.
pub fn quant_step(qp: u8) -> (r: i32)
    ensures
        r == quant_step_spec(qp),
{
    if qp == 0 { 1 } else { qp as i32 }
}

/// The 8-point transform in place (three butterfly stages).
pub fn wht8(v: &mut [i32; 8])
    requires
        bounded_by(ints32(old(v)@), 0x800_0000),
    ensures
        ints32(final(v)@) == wht8_spec(ints32(old(v)@)),
{
    let ghost x = ints32(v@);
    assert(-0x800_0000 <= x[0] <= 0x800_0000 && -0x800_0000 <= x[1] <= 0x800_0000);
    assert(-0x800_0000 <= x[2] <= 0x800_0000 && -0x800_0000 <= x[3] <= 0x800_0000);
    assert(-0x800_0000 <= x[4] <= 0x800_0000 && -0x800_0000 <= x[5] <= 0x800_0000);
    assert(-0x800_0000 <= x[6] <= 0x800_0000 && -0x800_0000 <= x[7] <= 0x800_0000);
    let a0 = v[0] + v[1];
    let a1 = v[0] - v[1];
    let a2 = v[2] + v[3];
    let a3 = v[2] - v[3];
    let a4 = v[4] + v[5];
    let a5 = v[4] - v[5];
    let a6 = v[6] + v[7];
    let a7 = v[6] - v[7];
    let b0 = a0 + a2;
    let b2 = a0 - a2;
    let b1 = a1 + a3;
    let b3 = a1 - a3;
    let b4 = a4 + a6;
    let b6 = a4 - a6;
    let b5 = a5 + a7;
    let b7 = a5 - a7;
    v[0] = b0 + b4;
    v[1] = b1 + b5;
    v[2] = b2 + b6;
    v[3] = b3 + b7;
    v[4] = b0 - b4;
    v[5] = b1 - b5;
    v[6] = b2 - b6;
    v[7] = b3 - b7;
    assert(ints32(v@) =~= wht8_spec(x));
}

/// The 2-D 8×8 transform in place: rows, then columns.
pub fn wht8x8(block: &mut [i32; 64])
    requires
        bounded_by(ints32(old(block)@), 0x100_0000),
    ensures
        ints32(final(block)@) == wht8x8_spec(ints32(old(block)@)),
{
    reveal(wht_rows);
    reveal(wht_cols);
    let ghost x = ints32(block@);
    let ghost rows = wht_rows(x);
    proof {
        assert forall|k: int| 0 <= k < 64 implies -0x800_0000 <= #[trigger] rows[k] <= 0x800_0000 by {
            let rw = row_of(x, k / 8);
            assert(bounded_by(rw, 0x100_0000));
            lemma_wht8_at_bound(rw, 0x100_0000, k % 8);
        }
    }
    let mut r: usize = 0;
    while r < 8
        invariant
            r <= 8,
            x.len() == 64,
            bounded_by(x, 0x100_0000),
            rows == wht_rows(x),
            forall|k: int| 0 <= k < 8 * r ==> #[trigger] block@[k] as int == rows[k],
            forall|k: int| 8 * r <= k < 64 ==> #[trigger] block@[k] as int == x[k],
        decreases 8 - r,
    {
        let mut row: [i32; 8] = [0; 8];
        let mut c: usize = 0;
        while c < 8
            invariant
                c <= 8,
                r < 8,
                forall|j: int| 0 <= j < c ==> #[trigger] row@[j] == block@[8 * r + j],
            decreases 8 - c,
        {
            row[c] = block[r * 8 + c];
            c += 1;
        }
        assert(ints32(row@) =~= row_of(x, r as int));
        assert(bounded_by(row_of(x, r as int), 0x100_0000));
        wht8(&mut row);
        let mut c: usize = 0;
        while c < 8
            invariant
                c <= 8,
                r < 8,
                ints32(row@) == wht8_spec(row_of(x, r as int)),
                rows == wht_rows(x),
                x.len() == 64,
                forall|k: int| 0 <= k < 8 * r ==> #[trigger] block@[k] as int == rows[k],
                forall|j: int| 0 <= j < c ==> #[trigger] block@[8 * r + j] as int == rows[8 * r + j],
                forall|k: int| 8 * r + c <= k < 64 ==> #[trigger] block@[k] as int == x[k],
            decreases 8 - c,
        {
            assert(ints32(row@)[c as int] == row@[c as int]);
            assert((8 * r + c) / 8 == r && (8 * r + c) % 8 == c);
            assert(rows[8 * r + c] == wht8_at(row_of(x, r as int), c as int)) by { reveal(wht_rows); }
            block[r * 8 + c] = row[c];
            c += 1;
        }
        assert forall|k: int| 8 * r <= k < 8 * r + 8 implies #[trigger] block@[k] as int == rows[k] by {
            let j = k - 8 * r;
            assert(block@[8 * r + j] as int == rows[8 * r + j]);
        }
        r += 1;
    }
    assert(ints32(block@) =~= rows);
    let mut c: usize = 0;
    while c < 8
        invariant
            c <= 8,
            rows.len() == 64,
            bounded_by(rows, 0x800_0000),
            forall|k: int| 0 <= k < 64 && k % 8 < c ==> #[trigger] block@[k] as int == wht_cols(rows)[k],
            forall|k: int| 0 <= k < 64 && k % 8 >= c ==> #[trigger] block@[k] as int == rows[k],
        decreases 8 - c,
    {
        let mut col: [i32; 8] = [0; 8];
        let mut r: usize = 0;
        while r < 8
            invariant
                r <= 8,
                c < 8,
                forall|j: int| 0 <= j < r ==> #[trigger] col@[j] == block@[8 * j + c],
            decreases 8 - r,
        {
            col[r] = block[r * 8 + c];
            r += 1;
        }
        assert forall|j: int| 0 <= j < 8 implies #[trigger] ((8 * j + c) % 8) == c by {}
        assert(ints32(col@) =~= col_of(rows, c as int));
        assert(bounded_by(col_of(rows, c as int), 0x800_0000));
        wht8(&mut col);
        let mut r: usize = 0;
        while r < 8
            invariant
                r <= 8,
                c < 8,
                ints32(col@) == wht8_spec(col_of(rows, c as int)),
                rows.len() == 64,
                forall|k: int| 0 <= k < 64 && k % 8 < c ==> #[trigger] block@[k] as int == wht_cols(rows)[k],
                forall|j: int| 0 <= j < r ==> #[trigger] block@[8 * j + c] as int == wht_cols(rows)[8 * j + c],
                forall|k: int| 0 <= k < 64 && (k % 8 > c || (k % 8 == c && k / 8 >= r)) ==> #[trigger] block@[k] as int == rows[k],
            decreases 8 - r,
        {
            assert(ints32(col@)[r as int] == col@[r as int]);
            assert((8 * r + c) / 8 == r && (8 * r + c) % 8 == c);
            assert(wht_cols(rows)[8 * r + c] == wht8_at(col_of(rows, c as int), r as int)) by { reveal(wht_cols); }
            block[r * 8 + c] = col[r];
            r += 1;
        }
        assert forall|k: int| 0 <= k < 64 && k % 8 == c implies #[trigger] block@[k] as int == wht_cols(rows)[k] by {
            assert(k == 8 * (k / 8) + c);
        }
        c += 1;
    }
    assert(ints32(block@) =~= wht8x8_spec(x));
}

// ─────────────────────────────────────────────────────────────────────
// Blocks
// ─────────────────────────────────────────────────────────────────────

/// Division of `n` by `d > 0`, rounding halves away from zero.
pub open spec fn div_round_spec(n: int, d: int) -> int {
    if n >= 0 { (n + d / 2) / d } else { -((-n + d / 2) / d) }
}

/// Round-half-away-from-zero division by `d > 0`.
pub fn div_round(n: i32, d: i32) -> (r: i32)
    requires
        d > 0,
        -0x4000_0000 <= n <= 0x4000_0000,
        d <= 0x4000_0000,
    ensures
        r == div_round_spec(n as int, d as int),
{
    if n >= 0 {
        (n + d / 2) / d
    } else {
        -((-n + d / 2) / d)
    }
}

/// A value saturated to `i16`.
pub open spec fn clamp_i16(v: int) -> i16 {
    if v < -32768 { -32768i16 } else if v > 32767 { 32767i16 } else { v as i16 }
}

/// A value saturated to 0..=255.
pub open spec fn clamp_u8(v: int) -> u8 {
    if v < 0 { 0u8 } else if v > 255 { 255u8 } else { v as u8 }
}

/// The coefficients of one 8×8 block of pixels: centred, transformed,
/// divided by `step` with rounding and saturated to `i16`.
pub open spec fn encode_block_spec(p: Seq<u8>, step: int) -> Seq<i16> {
    let y = wht8x8_spec(Seq::new(64, |i: int| p[i] as int - 128));
    Seq::new(64, |i: int| clamp_i16(div_round_spec(y[i], step)))
}

/// The pixels of one 8×8 block of coefficients: multiplied by `step`,
/// transformed, divided by 64 with rounding, de-centred and clamped.
pub open spec fn decode_block_spec(c: Seq<i16>, step: int) -> Seq<u8> {
    let z = wht8x8_spec(Seq::new(64, |i: int| c[i] as int * step));
    Seq::new(64, |i: int| clamp_u8(div_round_spec(z[i], 64) + 128))
}

/// Forward-transform and quantise one block.
pub fn encode_block(pixels: &[u8; 64], step: i32) -> (out: [i16; 64])
    requires
        1 <= step <= 51,
    ensures
        out@ == encode_block_spec(pixels@, step as int),
{
    let mut x: [i32; 64] = [0; 64];
    let mut i: usize = 0;
    while i < 64
        invariant
            i <= 64,
            forall|j: int| 0 <= j < i ==> #[trigger] x@[j] as int == pixels@[j] as int - 128,
        decreases 64 - i,
    {
        x[i] = pixels[i] as i32 - 128;
        i += 1;
    }
    let ghost xs = Seq::new(64, |j: int| pixels@[j] as int - 128);
    assert(ints32(x@) =~= xs);
    assert(bounded_by(xs, 128));
    proof { lemma_wht8x8_bound(xs, 128); }
    wht8x8(&mut x);
    let ghost y = wht8x8_spec(xs);
    let mut out: [i16; 64] = [0; 64];
    let mut i: usize = 0;
    while i < 64
        invariant
            i <= 64,
            1 <= step <= 51,
            y.len() == 64,
            bounded_by(y, 8192),
            ints32(x@) == y,
            forall|j: int| 0 <= j < i ==> #[trigger] out@[j] == clamp_i16(div_round_spec(y[j], step as int)),
        decreases 64 - i,
    {
        assert(ints32(x@)[i as int] == x@[i as int]);
        let q = div_round(x[i], step);
        out[i] = if q < -32768 { -32768 } else if q > 32767 { 32767 } else { q as i16 };
        i += 1;
    }
    assert(out@ =~= encode_block_spec(pixels@, step as int));
    out
}

/// Dequantise and inverse-transform one block.
pub fn decode_block(coeffs: &[i16; 64], step: i32) -> (out: [u8; 64])
    requires
        1 <= step <= 51,
    ensures
        out@ == decode_block_spec(coeffs@, step as int),
{
    let mut y: [i32; 64] = [0; 64];
    let mut i: usize = 0;
    while i < 64
        invariant
            i <= 64,
            1 <= step <= 51,
            forall|j: int| 0 <= j < i ==> #[trigger] y@[j] as int == coeffs@[j] as int * step,
        decreases 64 - i,
    {
        assert(-32768 * 51 <= coeffs[i as int] as int * step <= 32767 * 51) by (nonlinear_arith)
            requires
                1 <= step <= 51,
                -32768 <= coeffs[i as int] <= 32767;
        y[i] = coeffs[i] as i32 * step;
        i += 1;
    }
    let ghost ys = Seq::new(64, |j: int| coeffs@[j] as int * step);
    assert(ints32(y@) =~= ys);
    assert forall|j: int| 0 <= j < 64 implies -0x100_0000 <= #[trigger] ys[j] <= 0x100_0000 by {
        assert(-32768 * 51 <= coeffs@[j] as int * step <= 32767 * 51) by (nonlinear_arith)
            requires
                1 <= step <= 51,
                -32768 <= coeffs@[j] <= 32767;
    }
    proof { lemma_wht8x8_bound(ys, 0x100_0000); }
    wht8x8(&mut y);
    let ghost z = wht8x8_spec(ys);
    assert(bounded_by(z, 0x4000_0000));
    let mut out: [u8; 64] = [0; 64];
    let mut i: usize = 0;
    while i < 64
        invariant
            i <= 64,
            z.len() == 64,
            bounded_by(z, 0x4000_0000),
            ints32(y@) == z,
            forall|j: int| 0 <= j < i ==> #[trigger] out@[j] == clamp_u8(div_round_spec(z[j], 64) + 128),
        decreases 64 - i,
    {
        assert(ints32(y@)[i as int] == y@[i as int]);
        let pixel = div_round(y[i], 64) + 128;
        out[i] = if pixel < 0 { 0 } else if pixel > 255 { 255 } else { pixel as u8 };
        i += 1;
    }
    assert(out@ =~= decode_block_spec(coeffs@, step as int));
    out
}

/// At QP 0 (step 1) a block decodes back to exactly its pixels.
pub proof fn lemma_block_round_trip_lossless(p: Seq<u8>)
    requires
        p.len() == 64,
    ensures
        decode_block_spec(encode_block_spec(p, 1), 1) == p,
{
    let xs = Seq::new(64, |i: int| p[i] as int - 128);
    assert(bounded_by(xs, 128));
    lemma_wht8x8_bound(xs, 128);
    let y = wht8x8_spec(xs);
    let c = encode_block_spec(p, 1);
    assert forall|i: int| 0 <= i < 64 implies #[trigger] c[i] as int == y[i] by {
        assert(div_round_spec(y[i], 1) == y[i]);
    }
    let ys = Seq::new(64, |i: int| c[i] as int * 1);
    assert(ys =~= y);
    lemma_wht8x8_self_inverse(xs);
    let z = wht8x8_spec(ys);
    assert forall|i: int| 0 <= i < 64 implies #[trigger] z[i] == 64 * xs[i] by {}
    assert forall|i: int| 0 <= i < 64 implies #[trigger] decode_block_spec(c, 1)[i] == p[i] by {
        let v = xs[i];
        assert(div_round_spec(64 * v, 64) == v);
    }
    assert(decode_block_spec(c, 1) =~= p);
}

// ─────────────────────────────────────────────────────────────────────
// Planes
// ─────────────────────────────────────────────────────────────────────

/// The 8×8 block at block column `bx`, block row `by` of a plane of width
/// `w`, in raster order.
pub open spec fn block_pixels(p: Seq<u8>, w: int, bx: int, by: int) -> Seq<u8> {
    Seq::new(64, |i: int| p[(by * 8 + i / 8) * w + bx * 8 + i % 8])
}

/// The coefficients of a `w`×`h` plane: the blocks in raster order, 64
/// coefficients each.
pub open spec fn encode_plane_spec(p: Seq<u8>, w: int, h: int, step: int) -> Seq<i16> {
    let bw = w / 8;
    Seq::new(((w / 8) * (h / 8) * 64) as nat, |k: int| encode_block_spec(block_pixels(p, w, (k / 64) % bw, (k / 64) / bw), step)[k % 64])
}

/// The block holding pixel `j` of a plane of width `w`, and the pixel's
/// index inside it.
pub open spec fn block_of(j: int, w: int) -> (int, int) {
    let x = j % w;
    let y = j / w;
    ((y / 8) * (w / 8) + x / 8, (y % 8) * 8 + x % 8)
}

/// The pixels of a `w`×`h` plane decoded from its coefficients.
pub open spec fn decode_plane_spec(c: Seq<i16>, w: int, h: int, step: int) -> Seq<u8> {
    Seq::new((w * h) as nat, |j: int| {
        let (blk, i) = block_of(j, w);
        decode_block_spec(c.subrange(blk * 64, blk * 64 + 64), step)[i]
    })
}

proof fn lemma_block_index(blk: int, bw: int, bx: int, by: int)
    requires
        0 <= bx < bw,
        0 <= by,
        blk == by * bw + bx,
    ensures
        blk % bw == bx,
        blk / bw == by,
{
    lemma_fundamental_div_mod_converse(blk, bw, by, bx);
}

proof fn lemma_pixel_index(w: int, h: int, bx: int, by: int, i: int)
    by (nonlinear_arith)
    requires
        w % 8 == 0,
        h % 8 == 0,
        0 <= bx < w / 8,
        0 <= by < h / 8,
        0 <= i < 64,
    ensures
        0 <= (by * 8 + i / 8) * w + bx * 8 + i % 8 < w * h,
        (by * 8 + i / 8) * w + bx * 8 + i % 8 < (by * 8 + i / 8 + 1) * w,
{
    assert(bx * 8 + i % 8 < w);
    assert(by * 8 + i / 8 < h);
}

proof fn lemma_blocks_cover(w: int, h: int)
    by (nonlinear_arith)
    requires
        w % 8 == 0,
        h % 8 == 0,
        w >= 0,
        h >= 0,
    ensures
        (w / 8) * (h / 8) * 64 == w * h,
{
}

/// Encode a plane, block by block in raster order.
pub fn encode_plane(pixels: &[u8], width: usize, height: usize, step: i32) -> (out: Vec<i16>)
    requires
        width % 8 == 0,
        height % 8 == 0,
        pixels@.len() == width * height,
        1 <= step <= 51,
    ensures
        out@ == encode_plane_spec(pixels@, width as int, height as int, step as int),
{
    let ghost w = width as int;
    let ghost h = height as int;
    let bw = width / 8;
    let bh = height / 8;
    let plen = pixels.len();
    proof { lemma_blocks_cover(w, h); }
    let mut out: Vec<i16> = Vec::new();
    let mut by: usize = 0;
    while by < bh
        invariant
            by <= bh,
            bw == width / 8,
            bh == height / 8,
            width % 8 == 0,
            height % 8 == 0,
            1 <= step <= 51,
            pixels@.len() == width * height,
            plen == pixels@.len(),
            (w / 8) * (h / 8) * 64 == w * h,
            w == width,
            h == height,
            out@ =~= encode_plane_spec(pixels@, w, h, step as int).subrange(0, (by * bw * 64) as int),
        decreases bh - by,
    {
        let mut bx: usize = 0;
        while bx < bw
            invariant
                bx <= bw,
                by < bh,
                bw == width / 8,
                bh == height / 8,
                width % 8 == 0,
                height % 8 == 0,
                1 <= step <= 51,
                pixels@.len() == width * height,
                plen == pixels@.len(),
                (w / 8) * (h / 8) * 64 == w * h,
                w == width,
                h == height,
                out@ =~= encode_plane_spec(pixels@, w, h, step as int).subrange(0, ((by * bw + bx) * 64) as int),
            decreases bw - bx,
        {
            let mut block: [u8; 64] = [0; 64];
            let mut i: usize = 0;
            while i < 64
                invariant
                    i <= 64,
                    bx < bw,
                    by < bh,
                    bw == width / 8,
                    bh == height / 8,
                    width % 8 == 0,
                    height % 8 == 0,
                    pixels@.len() == width * height,
                    plen == pixels@.len(),
                    forall|t: int| 0 <= t < i ==> #[trigger] block@[t] == block_pixels(pixels@, width as int, bx as int, by as int)[t],
                decreases 64 - i,
            {
                proof { lemma_pixel_index(width as int, height as int, bx as int, by as int, i as int); }
                block[i] = pixels[(by * 8 + i / 8) * width + bx * 8 + i % 8];
                i += 1;
            }
            assert(block@ =~= block_pixels(pixels@, width as int, bx as int, by as int));
            let coeffs = encode_block(&block, step);
            let ghost blk = (by * bw + bx) as int;
            proof {
                lemma_block_index(blk, bw as int, bx as int, by as int);
                assert(blk < (w / 8) * (h / 8)) by (nonlinear_arith)
                    requires
                        blk == by * bw + bx,
                        bx < bw,
                        by < bh,
                        bw == w / 8,
                        bh == h / 8;
            }
            let mut i: usize = 0;
            while i < 64
                invariant
                    i <= 64,
                    blk == by * bw + bx,
                    blk % (bw as int) == bx,
                    blk / (bw as int) == by,
                    blk < (w / 8) * (h / 8),
                    bw == width / 8,
                    w == width,
                    h == height,
                    coeffs@ == encode_block_spec(block_pixels(pixels@, width as int, bx as int, by as int), step as int),
                    out@ =~= encode_plane_spec(pixels@, w, h, step as int).subrange(0, blk * 64 + i),
                decreases 64 - i,
            {
                let ghost k = blk * 64 + i;
                assert(k / 64 == blk && k % 64 == i);
                out.push(coeffs[i]);
                i += 1;
            }
            assert((by * bw + bx + 1) * 64 == blk * 64 + 64);
            bx += 1;
        }
        assert((by * bw + bw) * 64 == (by + 1) * bw * 64) by (nonlinear_arith);
        by += 1;
    }
    assert((bh * bw * 64) as int == (w / 8) * (h / 8) * 64) by (nonlinear_arith)
        requires
            bw == w / 8,
            bh == h / 8;
    out
}

proof fn lemma_block_of_bounds(j: int, w: int, h: int)
    requires
        w > 0,
        w % 8 == 0,
        h % 8 == 0,
        0 <= j < w * h,
    ensures
        0 <= block_of(j, w).0 < (w / 8) * (h / 8),
        0 <= block_of(j, w).1 < 64,
{
    let x = j % w;
    let y = j / w;
    lemma_fundamental_div_mod(j, w);
    assert(0 <= x < w);
    assert(0 <= y < h) by (nonlinear_arith)
        requires
            j == w * y + x,
            0 <= x < w,
            0 <= j < w * h,
            w > 0;
    let bx = x / 8;
    let by = y / 8;
    assert(bx < w / 8 && by < h / 8);
    assert(0 <= by * (w / 8) + bx < (w / 8) * (h / 8)) by (nonlinear_arith)
        requires
            0 <= bx < w / 8,
            0 <= by < h / 8;
}

/// Decode a plane: every block, then every pixel from its block.
pub fn decode_plane(coeffs: &[i16], width: usize, height: usize, step: i32) -> (out: Vec<u8>)
    requires
        width % 8 == 0,
        height % 8 == 0,
        coeffs@.len() == width * height,
        1 <= step <= 51,
    ensures
        out@ == decode_plane_spec(coeffs@, width as int, height as int, step as int),
{
    let ghost w = width as int;
    let ghost h = height as int;
    let clen = coeffs.len();
    let bw = width / 8;
    let bh = height / 8;
    proof { lemma_blocks_cover(w, h); }
    assert(bw * bh <= bw * bh * 64) by (nonlinear_arith);
    let nblocks = bw * bh;
    let mut blocks: Vec<[u8; 64]> = Vec::new();
    let mut b: usize = 0;
    while b < nblocks
        invariant
            b <= nblocks,
            nblocks == bw * bh,
            nblocks * 64 == clen,
            clen == coeffs@.len(),
            1 <= step <= 51,
            blocks@.len() == b,
            forall|t: int| 0 <= t < b ==> (#[trigger] blocks@[t])@ == decode_block_spec(coeffs@.subrange(t * 64, t * 64 + 64), step as int),
        decreases nblocks - b,
    {
        let mut c: [i16; 64] = [0; 64];
        let mut i: usize = 0;
        while i < 64
            invariant
                i <= 64,
                b < nblocks,
                nblocks * 64 == clen,
                clen == coeffs@.len(),
                forall|t: int| 0 <= t < i ==> #[trigger] c@[t] == coeffs@[b * 64 + t],
            decreases 64 - i,
        {
            c[i] = coeffs[b * 64 + i];
            i += 1;
        }
        assert(c@ =~= coeffs@.subrange(b * 64, b * 64 + 64));
        let px = decode_block(&c, step);
        blocks.push(px);
        b += 1;
    }
    let n = width * height;
    let mut out: Vec<u8> = Vec::new();
    let mut j: usize = 0;
    while j < n
        invariant
            j <= n,
            n == width * height,
            w == width,
            h == height,
            width % 8 == 0,
            height % 8 == 0,
            bw == width / 8,
            nblocks == (w / 8) * (h / 8),
            blocks@.len() == nblocks,
            forall|t: int| 0 <= t < nblocks ==> (#[trigger] blocks@[t])@ == decode_block_spec(coeffs@.subrange(t * 64, t * 64 + 64), step as int),
            out@ =~= decode_plane_spec(coeffs@, w, h, step as int).subrange(0, j as int),
        decreases n - j,
    {
        proof { lemma_block_of_bounds(j as int, w, h); }
        let x = j % width;
        let y = j / width;
        let blk = (y / 8) * bw + x / 8;
        let i = (y % 8) * 8 + x % 8;
        assert(blk as int == block_of(j as int, w).0 && i as int == block_of(j as int, w).1);
        out.push(blocks[blk][i]);
        j += 1;
    }
    out
}

// ─────────────────────────────────────────────────────────────────────
// Frames
// ─────────────────────────────────────────────────────────────────────

/// Frame dimensions the codec accepts: non-zero multiples of 16.
pub open spec fn dims_ok(width: u16, height: u16) -> bool {
    width != 0 && height != 0 && width % 16 == 0 && height % 16 == 0
}

/// What `encode_toy` returns for a frame given by its plain values: the
/// header and the three coefficient planes.
pub open spec fn encode_toy_spec(width: u16, height: u16, y: Seq<u8>, u: Seq<u8>, v: Seq<u8>, qp: u8) -> Result<(BqHeader, Seq<i16>, Seq<i16>, Seq<i16>), ToyCodecError> {
    let w = width as int;
    let h = height as int;
    if !dims_ok(width, height) {
        Err(ToyCodecError::InvalidDimensions)
    } else if qp > 51 {
        Err(ToyCodecError::Unsupported)
    } else if y.len() != w * h || u.len() != (w / 2) * (h / 2) || v.len() != (w / 2) * (h / 2) {
        Err(ToyCodecError::BufferTooSmall)
    } else {
        let step = quant_step_spec(qp);
        Ok((
            BqHeader { width, height, qp, chroma_format: 1 },
            encode_plane_spec(y, w, h, step),
            encode_plane_spec(u, w / 2, h / 2, step),
            encode_plane_spec(v, w / 2, h / 2, step),
        ))
    }
}

/// What `decode_toy` returns for a stream given by its plain values:
/// (width, height, Y, U, V).
pub open spec fn decode_toy_spec(hd: BqHeader, cy: Seq<i16>, cu: Seq<i16>, cv: Seq<i16>) -> Result<(u16, u16, Seq<u8>, Seq<u8>, Seq<u8>), ToyCodecError> {
    let w = hd.width as int;
    let h = hd.height as int;
    if !dims_ok(hd.width, hd.height) {
        Err(ToyCodecError::InvalidDimensions)
    } else if hd.chroma_format != 1 {
        Err(ToyCodecError::InvalidChromaFormat)
    } else if hd.qp > 51 {
        Err(ToyCodecError::Unsupported)
    } else if cy.len() != w * h || cu.len() != (w / 2) * (h / 2) || cv.len() != (w / 2) * (h / 2) {
        Err(ToyCodecError::BufferTooSmall)
    } else {
        let step = quant_step_spec(hd.qp);
        Ok((
            hd.width,
            hd.height,
            decode_plane_spec(cy, w, h, step),
            decode_plane_spec(cu, w / 2, h / 2, step),
            decode_plane_spec(cv, w / 2, h / 2, step),
        ))
    }
}

/// Encode a YUV frame at `qp` (0..=51; 0 is lossless).
pub fn encode_toy(frame: &YuvFrame, qp: u8) -> (res: Result<BqBitstream, ToyCodecError>)
    ensures
        match encode_toy_spec(frame.width, frame.height, frame.y@, frame.u@, frame.v@, qp) {
            Ok((hd, cy, cu, cv)) => res matches Ok(bs) && bs.header == hd && bs.coeffs_y@ == cy && bs.coeffs_u@ == cu
                && bs.coeffs_v@ == cv,
            Err(e) => res == Err::<BqBitstream, ToyCodecError>(e),
        },
{
    if frame.width == 0 || frame.height == 0 || frame.width % 16 != 0 || frame.height % 16 != 0 {
        return Err(ToyCodecError::InvalidDimensions);
    }
    if qp > 51 {
        return Err(ToyCodecError::Unsupported);
    }
    let w = frame.width as usize;
    let h = frame.height as usize;
    let cw = w / 2;
    let ch = h / 2;
    assert(w * h <= 0xffff * 0xffff && cw * ch <= 0xffff * 0xffff) by (nonlinear_arith)
        requires
            w <= 0xffff,
            h <= 0xffff,
            cw <= w,
            ch <= h;
    if frame.y.len() as u64 != w as u64 * h as u64 || frame.u.len() as u64 != cw as u64 * ch as u64
        || frame.v.len() as u64 != cw as u64 * ch as u64 {
        return Err(ToyCodecError::BufferTooSmall);
    }
    let step = quant_step(qp);
    let coeffs_y = encode_plane(frame.y.as_slice(), w, h, step);
    let coeffs_u = encode_plane(frame.u.as_slice(), cw, ch, step);
    let coeffs_v = encode_plane(frame.v.as_slice(), cw, ch, step);
    Ok(BqBitstream {
        header: BqHeader { width: frame.width, height: frame.height, qp, chroma_format: 1 },
        coeffs_y,
        coeffs_u,
        coeffs_v,
    })
}

/// Decode a BlockQuant stream into a YUV frame.
pub fn decode_toy(bitstream: &BqBitstream) -> (res: Result<YuvFrame, ToyCodecError>)
    ensures
        match decode_toy_spec(bitstream.header, bitstream.coeffs_y@, bitstream.coeffs_u@, bitstream.coeffs_v@) {
            Ok((w, h, y, u, v)) => res matches Ok(f) && f.width == w && f.height == h && f.y@ == y && f.u@ == u && f.v@ == v,
            Err(e) => res == Err::<YuvFrame, ToyCodecError>(e),
        },
{
    let width = bitstream.header.width;
    let height = bitstream.header.height;
    let qp = bitstream.header.qp;
    let chroma_format = bitstream.header.chroma_format;
    if width == 0 || height == 0 || width % 16 != 0 || height % 16 != 0 {
        return Err(ToyCodecError::InvalidDimensions);
    }
    if chroma_format != 1 {
        return Err(ToyCodecError::InvalidChromaFormat);
    }
    if qp > 51 {
        return Err(ToyCodecError::Unsupported);
    }
    let w = width as usize;
    let h = height as usize;
    let cw = w / 2;
    let ch = h / 2;
    assert(w * h <= 0xffff * 0xffff && cw * ch <= 0xffff * 0xffff) by (nonlinear_arith)
        requires
            w <= 0xffff,
            h <= 0xffff,
            cw <= w,
            ch <= h;
    if bitstream.coeffs_y.len() as u64 != w as u64 * h as u64 || bitstream.coeffs_u.len() as u64 != cw as u64 * ch as u64
        || bitstream.coeffs_v.len() as u64 != cw as u64 * ch as u64 {
        return Err(ToyCodecError::BufferTooSmall);
    }
    let step = quant_step(qp);
    let y = decode_plane(bitstream.coeffs_y.as_slice(), w, h, step);
    let u = decode_plane(bitstream.coeffs_u.as_slice(), cw, ch, step);
    let v = decode_plane(bitstream.coeffs_v.as_slice(), cw, ch, step);
    Ok(YuvFrame { width, height, y, u, v })
}

// ─────────────────────────────────────────────────────────────────────
// The lossless round trip
// ─────────────────────────────────────────────────────────────────────

/// At QP 0 a plane decodes back to exactly its pixels.
pub proof fn lemma_plane_round_trip_lossless(p: Seq<u8>, w: int, h: int)
    requires
        w > 0,
        h >= 0,
        w % 8 == 0,
        h % 8 == 0,
        p.len() == w * h,
    ensures
        decode_plane_spec(encode_plane_spec(p, w, h, 1), w, h, 1) == p,
{
    let c = encode_plane_spec(p, w, h, 1);
    let bw = w / 8;
    lemma_blocks_cover(w, h);
    assert forall|j: int| 0 <= j < w * h implies #[trigger] decode_plane_spec(c, w, h, 1)[j] == p[j] by {
        lemma_block_of_bounds(j, w, h);
        let x = j % w;
        let y = j / w;
        lemma_fundamental_div_mod(j, w);
        assert(0 <= x < w);
        let bx = x / 8;
        let by = y / 8;
        let (blk, i) = block_of(j, w);
        assert(blk == by * bw + bx);
        assert(0 <= bx < bw);
        assert(0 <= by);
        lemma_block_index(blk, bw, bx, by);
        let bp = block_pixels(p, w, bx, by);
        assert forall|t: int| 0 <= t < 64 implies #[trigger] c.subrange(blk * 64, blk * 64 + 64)[t] == encode_block_spec(bp, 1)[t] by {
            let k = blk * 64 + t;
            assert(k / 64 == blk && k % 64 == t);
        }
        assert(c.subrange(blk * 64, blk * 64 + 64) =~= encode_block_spec(bp, 1));
        lemma_block_round_trip_lossless(bp);
        assert(i / 8 == y % 8 && i % 8 == x % 8);
        assert(by * 8 + y % 8 == y);
        assert(bx * 8 + x % 8 == x);
        assert((by * 8 + i / 8) * w + bx * 8 + i % 8 == j) by (nonlinear_arith)
            requires
                by * 8 + i / 8 == y,
                bx * 8 + i % 8 == x,
                j == w * y + x;
    }
    assert(decode_plane_spec(c, w, h, 1) =~= p);
}

/// At QP 0 (and QP 1, which quantises with the same step) a frame the
/// encoder accepts decodes back to exactly itself.
pub proof fn lemma_toy_round_trip_lossless(width: u16, height: u16, y: Seq<u8>, u: Seq<u8>, v: Seq<u8>, qp: u8)
    requires
        qp <= 1,
        encode_toy_spec(width, height, y, u, v, qp) is Ok,
    ensures
        encode_toy_spec(width, height, y, u, v, qp) matches Ok((hd, cy, cu, cv))
            && decode_toy_spec(hd, cy, cu, cv) == Ok::<(u16, u16, Seq<u8>, Seq<u8>, Seq<u8>), ToyCodecError>((width, height, y, u, v)),
{
    assert(quant_step_spec(qp) == 1);
    let w = width as int;
    let h = height as int;
    lemma_plane_round_trip_lossless(y, w, h);
    lemma_plane_round_trip_lossless(u, w / 2, h / 2);
    lemma_plane_round_trip_lossless(v, w / 2, h / 2);
    lemma_blocks_cover(w, h);
    lemma_blocks_cover(w / 2, h / 2);
}

// ─────────────────────────────────────────────────────────────────────
// Raw frames and the stream file format
// ─────────────────────────────────────────────────────────────────────

/// The frame held by the first `w·h + 2·(w/2)·(h/2)` bytes of a planar
/// YUV 4:2:0 buffer: Y, then U, then V.
pub open spec fn split_yuv420_spec(data: Seq<u8>, width: u16, height: u16) -> Option<(Seq<u8>, Seq<u8>, Seq<u8>)> {
    let ys = width as int * height as int;
    let uvs = (width as int / 2) * (height as int / 2);
    if data.len() < ys + 2 * uvs {
        None
    } else {
        Some((data.subrange(0, ys), data.subrange(ys, ys + uvs), data.subrange(ys + uvs, ys + 2 * uvs)))
    }
}

/// A copy of `data[from..to]`.
fn copy_range(data: &[u8], from: usize, to: usize) -> (v: Vec<u8>)
    requires
        from <= to <= data@.len(),
    ensures
        v@ == data@.subrange(from as int, to as int),
{
    let mut v: Vec<u8> = Vec::new();
    let mut i = from;
    while i < to
        invariant
            from <= i <= to,
            to <= data@.len(),
            v@ == data@.subrange(from as int, i as int),
        decreases to - i,
    {
        v.push(data[i]);
        i += 1;
        assert(v@ =~= data@.subrange(from as int, i as int));
    }
    v
}

/// Split a raw planar YUV 4:2:0 buffer into a frame; `None` when it is
/// shorter than one frame.
pub fn frame_from_yuv420(data: &[u8], width: u16, height: u16) -> (r: Option<YuvFrame>)
    ensures
        match split_yuv420_spec(data@, width, height) {
            None => r is None,
            Some((y, u, v)) => r matches Some(f) && f.width == width && f.height == height && f.y@ == y && f.u@ == u && f.v@ == v,
        },
{
    let w = width as u64;
    let h = height as u64;
    assert(w * h <= 0xffff * 0xffff && (w / 2) * (h / 2) <= w * h) by (nonlinear_arith)
        requires
            w <= 0xffff,
            h <= 0xffff;
    let ys64 = w * h;
    let uvs64 = (w / 2) * (h / 2);
    if (data.len() as u64) < ys64 + 2 * uvs64 {
        return None;
    }
    let ys = ys64 as usize;
    let uvs = uvs64 as usize;
    let y = copy_range(data, 0, ys);
    let u = copy_range(data, ys, ys + uvs);
    let v = copy_range(data, ys + uvs, ys + 2 * uvs);
    Some(YuvFrame { width, height, y, u, v })
}

/// The coefficients as little-endian 16-bit two's-complement values.
pub open spec fn coeff_bytes(c: Seq<i16>) -> Seq<u8>
    decreases c.len(),
{
    if c.len() == 0 {
        Seq::empty()
    } else {
        coeff_bytes(c.drop_last()) + le_bytes(c.last() as u16 as int, 2)
    }
}

/// The stream file: width and height (u16 LE), QP, chroma format, the
/// three coefficient counts (u32 LE, taken modulo 2^32), then the
/// coefficients of Y, U and V.
pub open spec fn bitstream_bytes(bs: BqBitstream) -> Seq<u8> {
    le_bytes(bs.header.width as int, 2) + le_bytes(bs.header.height as int, 2) + seq![bs.header.qp, bs.header.chroma_format]
        + le_bytes(bs.coeffs_y@.len() as u32 as int, 4) + le_bytes(bs.coeffs_u@.len() as u32 as int, 4)
        + le_bytes(bs.coeffs_v@.len() as u32 as int, 4) + coeff_bytes(bs.coeffs_y@) + coeff_bytes(bs.coeffs_u@)
        + coeff_bytes(bs.coeffs_v@)
}

fn push_coeffs(buf: &mut Vec<u8>, c: &Vec<i16>)
    ensures
        final(buf)@ == old(buf)@ + coeff_bytes(c@),
{
    let mut i: usize = 0;
    while i < c.len()
        invariant
            i <= c@.len(),
            buf@ == old(buf)@ + coeff_bytes(c@.subrange(0, i as int)),
        decreases c@.len() - i,
    {
        let ghost before = buf@;
        push_le(buf, c[i] as u16 as u64, 2);
        let ghost s = c@.subrange(0, i + 1);
        assert(s.drop_last() =~= c@.subrange(0, i as int));
        assert(s.last() == c@[i as int]);
        i += 1;
        assert(buf@ =~= old(buf)@ + coeff_bytes(c@.subrange(0, i as int)));
    }
    assert(c@.subrange(0, c@.len() as int) =~= c@);
}

/// The stream in its file format.
pub fn bitstream_to_bytes(bs: &BqBitstream) -> (out: Vec<u8>)
    ensures
        out@ == bitstream_bytes(*bs),
{
    let mut out: Vec<u8> = Vec::new();
    push_le(&mut out, bs.header.width as u64, 2);
    push_le(&mut out, bs.header.height as u64, 2);
    out.push(bs.header.qp);
    out.push(bs.header.chroma_format);
    push_le(&mut out, bs.coeffs_y.len() as u32 as u64, 4);
    push_le(&mut out, bs.coeffs_u.len() as u32 as u64, 4);
    push_le(&mut out, bs.coeffs_v.len() as u32 as u64, 4);
    push_coeffs(&mut out, &bs.coeffs_y);
    push_coeffs(&mut out, &bs.coeffs_u);
    push_coeffs(&mut out, &bs.coeffs_v);
    assert(out@ =~= bitstream_bytes(*bs));
    out
}

} // verus!
