//! Top-level decode of one baseline IDR I-frame: walk the Annex-B stream,
//! parse the parameter sets and the slice header, then each macroblock in
//! raster order. Luma of I_NxN macroblocks is reconstructed (Intra_4×4
//! prediction plus dequantized, inverse-transformed residual); the
//! macroblocks the decoder cannot reconstruct are filled with a flat grey
//! level, and chroma stays at 128.

use vstd::prelude::*;

use crate::bitreader::{bits_spec, bits_value, lemma_bits_value_bound, p2, BitReader};
use crate::intra::{intra4x4_index, mode_available, pred_block, predict_4x4, Intra4x4Mode, Neighbors4x4};
use crate::mb::{
    decode_macroblock_residuals, header_modes_spec, header_spec, mode_info_spec, mode_records_loop, intra4x4_from_index, parse_macroblock_header, resolve_intra4x4_mode,
    resolved_index, residuals_spec, z_scan_4x4, zscan_spec, Intra4x4ModeRecord, MacroblockHeader, MacroblockResiduals,
    MbHeaderModel, MbType,
};
use crate::nal::{lemma_next_unit_advances, next_unit_spec, nut, rbsp_from, strip_emulation_prevention, NalUnitIterator};
use crate::quant::{dequant_spec, inverse_quant_4x4_ac};
use crate::slice::{pps_spec, slice_header_spec, slice_params_ok, sps_spec, Pps, SliceHeader, Sps};
use crate::transform::{idct4x4, idct_4x4, ints, lemma_idct4x4_bounded, round6, round_shift_6};
use crate::DecodeError;

verus! {

// ─────────────────────────────────────────────────────────────────────
// Intra_4×4 mode prediction inside a macroblock
// ─────────────────────────────────────────────────────────────────────

/// The index (0..=8) of an Intra_4×4 mode.
pub fn mode_index(m: Intra4x4Mode) -> (r: u8)
    ensures
        r as int == intra4x4_index(m),
{
    match m {
        Intra4x4Mode::Vertical => 0,
        Intra4x4Mode::Horizontal => 1,
        Intra4x4Mode::Dc => 2,
        Intra4x4Mode::DiagonalDownLeft => 3,
        Intra4x4Mode::DiagonalDownRight => 4,
        Intra4x4Mode::VerticalRight => 5,
        Intra4x4Mode::HorizontalDown => 6,
        Intra4x4Mode::VerticalLeft => 7,
        Intra4x4Mode::HorizontalUp => 8,
    }
}

/// The predicted mode index of block (`x`, `y`) from the resolved modes of
/// the blocks above and to the left inside the macroblock: the smaller of
/// the two, or 2 (DC) when either is missing (§8.3.1.1).
pub open spec fn predicted_mode_spec(modes: Seq<Option<Intra4x4Mode>>, x: int, y: int) -> u8 {
    let top = if y > 0 { modes[(y - 1) * 4 + x] } else { None };
    let left = if x > 0 { modes[y * 4 + x - 1] } else { None };
    match (top, left) {
        (Some(t), Some(l)) => if intra4x4_index(t) < intra4x4_index(l) {
            intra4x4_index(t) as u8
        } else {
            intra4x4_index(l) as u8
        },
        _ => 2,
    }
}

/// Predicted Intra_4×4 mode index of block (`sub_x`, `sub_y`).
pub fn predict_intra_4x4_mode(local_modes: &[Option<Intra4x4Mode>; 16], sub_x: usize, sub_y: usize) -> (r: u8)
    requires
        sub_x < 4,
        sub_y < 4,
    ensures
        r == predicted_mode_spec(local_modes@, sub_x as int, sub_y as int),
{
    let top: Option<Intra4x4Mode> = if sub_y > 0 { local_modes[(sub_y - 1) * 4 + sub_x] } else { None };
    let left: Option<Intra4x4Mode> = if sub_x > 0 { local_modes[sub_y * 4 + (sub_x - 1)] } else { None };
    match (top, left) {
        (Some(t), Some(l)) => {
            let ti = mode_index(t);
            let li = mode_index(l);
            if ti < li { ti } else { li }
        },
        _ => 2,
    }
}

/// The block-scan index of block (`sub_x`, `sub_y`) (0 outside the
/// macroblock).
pub open spec fn z_scan_index_spec(x: int, y: int) -> int {
    if 0 <= x < 4 && 0 <= y < 4 {
        4 * (2 * (y / 2) + x / 2) + 2 * (y % 2) + x % 2
    } else {
        0
    }
}

/// Block-scan index of a 4×4 block position: the inverse of the
/// block-scan table.
pub fn z_scan_index(sub_x: usize, sub_y: usize) -> (z: usize)
    ensures
        z == z_scan_index_spec(sub_x as int, sub_y as int),
{
    if sub_x < 4 && sub_y < 4 {
        4 * (2 * (sub_y / 2) + sub_x / 2) + 2 * (sub_y % 2) + sub_x % 2
    } else {
        0
    }
}

/// `z_scan_index` inverts the block-scan table.
pub proof fn lemma_z_scan_index_inverts()
    ensures
        forall|k: int| 0 <= k < 16 ==> {
            let (x, y) = #[trigger] zscan_spec()[k];
            z_scan_index_spec(x as int, y as int) == k
        },
{
    assert forall|k: int| 0 <= k < 16 implies ({
        let (x, y) = #[trigger] zscan_spec()[k];
        z_scan_index_spec(x as int, y as int) == k
    }) by {
        if k == 0 {} else if k == 1 {} else if k == 2 {} else if k == 3 {}
        else if k == 4 {} else if k == 5 {} else if k == 6 {} else if k == 7 {}
        else if k == 8 {} else if k == 9 {} else if k == 10 {} else if k == 11 {}
        else if k == 12 {} else if k == 13 {} else if k == 14 {} else {}
    }
}

/// Every Explicit remainder is a 3-bit value.
pub open spec fn records_small(recs: Seq<Intra4x4ModeRecord>) -> bool {
    forall|i: int| 0 <= i < recs.len() ==> (#[trigger] recs[i] matches Intra4x4ModeRecord::Explicit { rem } ==> rem < 8)
}

/// The headers whose mode records are 3-bit values.
pub open spec fn header_small(hm: MbHeaderModel) -> bool {
    match hm.1 {
        Some(recs) => records_small(recs) && recs.len() == 16,
        None => true,
    }
}

/// The mode block `k` (in block-scan order) resolves to, with DC where the
/// header has no records or the record resolves out of range.
pub open spec fn resolved_mode_spec(hm: MbHeaderModel, k: int, predicted: u8) -> Intra4x4Mode {
    match hm.1 {
        Some(recs) => match intra4x4_from_index(resolved_index(recs[k], predicted)) {
            Ok(m) => m,
            Err(_) => Intra4x4Mode::Dc,
        },
        None => Intra4x4Mode::Dc,
    }
}

// ─────────────────────────────────────────────────────────────────────
// Neighbour samples
// ─────────────────────────────────────────────────────────────────────

/// The neighbour samples of the 4×4 block at (`bx`, `by`) in a plane of
/// width `w`: the row above, the four above-right when they lie inside the
/// picture, the column to the left and the corner.
pub open spec fn neighbors_spec(plane: Seq<u8>, w: int, bx: int, by: int) -> Neighbors4x4 {
    Neighbors4x4 {
        top: if by >= 1 {
            Some([plane[(by - 1) * w + bx], plane[(by - 1) * w + bx + 1], plane[(by - 1) * w + bx + 2], plane[(by - 1) * w + bx + 3]])
        } else {
            None
        },
        top_right: if by >= 1 && bx + 7 < w {
            Some([plane[(by - 1) * w + bx + 4], plane[(by - 1) * w + bx + 5], plane[(by - 1) * w + bx + 6], plane[(by - 1) * w + bx + 7]])
        } else {
            None
        },
        left: if bx >= 1 {
            Some([plane[by * w + bx - 1], plane[(by + 1) * w + bx - 1], plane[(by + 2) * w + bx - 1], plane[(by + 3) * w + bx - 1]])
        } else {
            None
        },
        top_left: if bx >= 1 && by >= 1 { Some(plane[(by - 1) * w + bx - 1]) } else { None },
    }
}

proof fn lemma_row_index(r: int, w: int, x: int, rows: int, len: int)
    by (nonlinear_arith)
    requires
        0 <= r < rows,
        0 <= x < w,
        rows * w <= len,
    ensures
        0 <= r * w + x < len,
        r * w + x < (r + 1) * w,
{
}

/// Read the neighbours of the 4×4 block at (`block_x`, `block_y`).
pub fn build_neighbors_4x4(plane: &[u8], pic_w: usize, block_x: usize, block_y: usize) -> (n: Neighbors4x4)
    requires
        pic_w > 0,
        block_x + 4 <= pic_w,
        (block_y + 4) * pic_w <= plane@.len(),
    ensures
        n == neighbors_spec(plane@, pic_w as int, block_x as int, block_y as int),
{
    let ghost len = plane@.len() as int;
    let ghost w = pic_w as int;
    let ghost rows = block_y + 4;
    assert(block_y + 4 <= (block_y + 4) * pic_w) by (nonlinear_arith)
        requires
            pic_w > 0;
    // The number of whole rows in the plane.
    let _pic_h = plane.len() / pic_w;
    let top: Option<[u8; 4]> = if block_y >= 1 {
        let y = block_y - 1;
        proof {
            lemma_row_index(y as int, w, block_x as int, rows as int, len);
            lemma_row_index(y as int, w, block_x + 3, rows as int, len);
        }
        Some([plane[y * pic_w + block_x], plane[y * pic_w + block_x + 1], plane[y * pic_w + block_x + 2], plane[y * pic_w + block_x + 3]])
    } else {
        None
    };
    let top_right: Option<[u8; 4]> = if block_y >= 1 && pic_w >= 8 && block_x < pic_w - 7 {
        let y = block_y - 1;
        proof {
            lemma_row_index(y as int, w, block_x + 4, rows as int, len);
            lemma_row_index(y as int, w, block_x + 7, rows as int, len);
        }
        Some([plane[y * pic_w + block_x + 4], plane[y * pic_w + block_x + 5], plane[y * pic_w + block_x + 6], plane[y * pic_w + block_x + 7]])
    } else {
        None
    };
    let left: Option<[u8; 4]> = if block_x >= 1 {
        let x = block_x - 1;
        proof {
            lemma_row_index(block_y as int, w, x as int, rows as int, len);
            lemma_row_index(block_y + 1int, w, x as int, rows as int, len);
            lemma_row_index(block_y + 2int, w, x as int, rows as int, len);
            lemma_row_index(block_y + 3int, w, x as int, rows as int, len);
        }
        let y1 = block_y + 1;
        let y2 = block_y + 2;
        let y3 = block_y + 3;
        Some([plane[block_y * pic_w + x], plane[y1 * pic_w + x], plane[y2 * pic_w + x], plane[y3 * pic_w + x]])
    } else {
        None
    };
    let top_left: Option<u8> = if block_x >= 1 && block_y >= 1 {
        proof { lemma_row_index(block_y - 1, w, block_x - 1, rows as int, len); }
        Some(plane[(block_y - 1) * pic_w + (block_x - 1)])
    } else {
        None
    };
    Neighbors4x4 { top, top_right, left, top_left }
}

// ─────────────────────────────────────────────────────────────────────
// Residual and write-back
// ─────────────────────────────────────────────────────────────────────

/// A level saturated to `i16`.
pub open spec fn clamp16_spec(v: i32) -> i16 {
    if v < -32768 { -32768i16 } else if v > 32767 { 32767i16 } else { v as i16 }
}

/// A sample saturated to 0..=255.
pub open spec fn clamp255_spec(v: int) -> u8 {
    if v < 0 { 0u8 } else if v > 255 { 255u8 } else { v as u8 }
}

/// The dequantized block (all zero when `qp` is out of range).
pub open spec fn dequant_block_spec(levels: Seq<i32>, qp: u32) -> Seq<int> {
    if qp <= 51 {
        Seq::new(16, |k: int| dequant_spec(clamp16_spec(levels[k]) as int, qp as int, k % 4, k / 4))
    } else {
        Seq::new(16, |k: int| 0int)
    }
}

/// Coefficients small enough that the inverse transform stays in `i32`.
pub open spec fn coeffs_bounded(c: Seq<int>) -> bool {
    forall|k: int| 0 <= k < 16 ==> -0x400_0000 <= #[trigger] c[k] <= 0x400_0000
}

/// The prediction plus the inverse-transformed residual of `levels`,
/// saturated to 0..=255. A dequantized coefficient beyond ±2^26 (which
/// CAVLC levels never reach) leaves the prediction as it is.
pub open spec fn with_residual(pred: Seq<u8>, levels: Seq<i32>, qp: u32) -> Seq<u8> {
    let dq = dequant_block_spec(levels, qp);
    if !coeffs_bounded(dq) {
        pred
    } else {
        let r = idct4x4(dq);
        Seq::new(16, |k: int| clamp255_spec(pred[k] + round6(r[k])))
    }
}

/// Saturate a level to `i16`.
fn clamp16(v: i32) -> (r: i16)
    ensures
        r == clamp16_spec(v),
{
    if v < -32768 { -32768 } else if v > 32767 { 32767 } else { v as i16 }
}

/// Whether every coefficient lies within ±2^26.
fn bounded_coeffs(c: &[i32; 16]) -> (b: bool)
    ensures
        b == coeffs_bounded(ints(c@)),
{
    let mut k: usize = 0;
    while k < 16
        invariant
            k <= 16,
            forall|j: int| 0 <= j < k ==> -0x400_0000 <= #[trigger] c@[j] <= 0x400_0000,
        decreases 16 - k,
    {
        if c[k] < -0x400_0000 || c[k] > 0x400_0000 {
            assert(!(-0x400_0000 <= ints(c@)[k as int] <= 0x400_0000));
            return false;
        }
        k += 1;
    }
    assert forall|j: int| 0 <= j < 16 implies -0x400_0000 <= #[trigger] ints(c@)[j] <= 0x400_0000 by {
        assert(c@[j] == ints(c@)[j]);
    }
    true
}

/// Add the residual of `levels` to the predicted block.
fn add_residual(pred: &[u8; 16], levels: &[i32; 16], qp_y: u32) -> (out: [u8; 16])
    ensures
        out@ == with_residual(pred@, levels@, qp_y),
{
    let mut level_i16 = [0i16; 16];
    let mut i: usize = 0;
    while i < 16
        invariant
            i <= 16,
            forall|j: int| 0 <= j < i ==> #[trigger] level_i16@[j] == clamp16_spec(levels@[j]),
        decreases 16 - i,
    {
        level_i16[i] = clamp16(levels[i]);
        i += 1;
    }
    let dequant = match inverse_quant_4x4_ac(&level_i16, qp_y) {
        Ok(d) => d,
        Err(_) => [0i32; 16],
    };
    let ghost dq = dequant_block_spec(levels@, qp_y);
    assert(ints(dequant@) =~= dq) by {
        assert forall|k: int| 0 <= k < 16 implies #[trigger] ints(dequant@)[k] == dq[k] by {
            if qp_y <= 51 {
                let j = k / 4;
                let c = k % 4;
                assert(j * 4 + c == k);
                assert(dequant[j * 4 + c] as int == dequant_spec(level_i16[j * 4 + c] as int, qp_y as int, c, j));
            }
        }
    }
    if !bounded_coeffs(&dequant) {
        return *pred;
    }
    proof { lemma_idct4x4_bounded(dq, 0x400_0000); }
    let mut residual = idct_4x4(&dequant);
    let ghost r = idct4x4(dq);
    assert forall|k: int| 0 <= k < 16 implies #[trigger] residual@[k] <= i32::MAX - 32 by {
        assert(ints(residual@)[k] == r[k]);
    }
    let ghost before = residual@;
    round_shift_6(&mut residual);
    let mut out = [0u8; 16];
    let mut k: usize = 0;
    while k < 16
        invariant
            k <= 16,
            r == idct4x4(dq),
            forall|j: int| 0 <= j < 16 ==> -0x4000_0000 <= #[trigger] r[j] <= 0x4000_0000,
            forall|j: int| 0 <= j < 16 ==> #[trigger] residual@[j] as int == round6(r[j]),
            forall|j: int| 0 <= j < k ==> #[trigger] out@[j] == clamp255_spec(pred@[j] + round6(r[j])),
        decreases 16 - k,
    {
        let v = pred[k] as i32 + residual[k];
        out[k] = if v < 0 { 0 } else if v > 255 { 255 } else { v as u8 };
        k += 1;
    }
    assert(out@ =~= with_residual(pred@, levels@, qp_y));
    out
}

/// Write block sample `k..16` of `blk` at (`bx`, `by`), skipping samples
/// whose row or column is not below the plane width (and any outside the
/// plane).
pub open spec fn write_loop(plane: Seq<u8>, w: int, bx: int, by: int, blk: Seq<u8>, k: int) -> Seq<u8>
    decreases 16 - k,
{
    if k >= 16 || k < 0 {
        plane
    } else {
        let py = by + k / 4;
        let px = bx + k % 4;
        let next = if py < w && px < w && 0 <= py * w + px < plane.len() { plane.update(py * w + px, blk[k]) } else { plane };
        write_loop(next, w, bx, by, blk, k + 1)
    }
}

/// Write a reconstructed 4×4 block back into the plane.
fn write_block(plane: &mut Vec<u8>, pic_w: usize, block_x: usize, block_y: usize, blk: &[u8; 16])
    requires
        pic_w > 0,
        block_x + 4 <= pic_w,
        (block_y + 4) * pic_w <= old(plane)@.len(),
    ensures
        final(plane)@ == write_loop(old(plane)@, pic_w as int, block_x as int, block_y as int, blk@, 0),
{
    let ghost len = plane@.len() as int;
    let ghost target = write_loop(old(plane)@, pic_w as int, block_x as int, block_y as int, blk@, 0);
    assert(block_y + 4 <= (block_y + 4) * pic_w) by (nonlinear_arith)
        requires
            pic_w > 0;
    let plane_len = plane.len();
    let mut k: usize = 0;
    while k < 16
        invariant
            k <= 16,
            plane@.len() == len,
            len == plane_len,
            pic_w > 0,
            block_x + 4 <= pic_w,
            (block_y + 4) * pic_w <= len,
            block_y + 4 <= len,
            target == write_loop(plane@, pic_w as int, block_x as int, block_y as int, blk@, k as int),
        decreases 16 - k,
    {
        let r = k / 4;
        let c = k % 4;
        let py = block_y + r;
        let px = block_x + c;
        if py < pic_w && px < pic_w {
            proof { lemma_row_index(py as int, pic_w as int, px as int, block_y + 4, len); }
            plane.set(py * pic_w + px, blk[k]);
        }
        k += 1;
    }
}

// ─────────────────────────────────────────────────────────────────────
// Luma reconstruction of one macroblock
// ─────────────────────────────────────────────────────────────────────

/// The predicted block for `mode`, or the DC prediction when `mode`
/// needs a neighbour that is missing.
pub open spec fn prediction_spec(mode: Intra4x4Mode, n: Neighbors4x4) -> Seq<u8> {
    if mode_available(mode, n) { pred_block(mode, n) } else { pred_block(Intra4x4Mode::Dc, n) }
}

/// Reconstruct block `k` (in block-scan order) of the macroblock at
/// (`col`, `row`): the plane afterwards and the resolved modes so far.
pub open spec fn block_step(
    plane: Seq<u8>,
    w: int,
    col: int,
    row: int,
    hm: MbHeaderModel,
    rm: Seq<Option<Seq<i32>>>,
    qp: u32,
    k: int,
    modes: Seq<Option<Intra4x4Mode>>,
) -> (Seq<u8>, Seq<Option<Intra4x4Mode>>) {
    let (x, y) = zscan_spec()[k];
    let blk = y * 4 + x;
    let mode = resolved_mode_spec(hm, k, predicted_mode_spec(modes, x as int, y as int));
    let bx = col * 16 + x * 4;
    let by = row * 16 + y * 4;
    let pred = prediction_spec(mode, neighbors_spec(plane, w, bx, by));
    let fin = match rm[blk as int] {
        Some(lv) => with_residual(pred, lv, qp),
        None => pred,
    };
    (write_loop(plane, w, bx, by, fin, 0), modes.update(blk as int, Some(mode)))
}

/// Reconstruct blocks `k..16` in block-scan order.
pub open spec fn recon_loop(
    plane: Seq<u8>,
    w: int,
    col: int,
    row: int,
    hm: MbHeaderModel,
    rm: Seq<Option<Seq<i32>>>,
    qp: u32,
    k: int,
    modes: Seq<Option<Intra4x4Mode>>,
) -> Seq<u8>
    decreases 16 - k,
{
    if k >= 16 || k < 0 {
        plane
    } else {
        let (p2, m2) = block_step(plane, w, col, row, hm, rm, qp, k, modes);
        recon_loop(p2, w, col, row, hm, rm, qp, k + 1, m2)
    }
}

/// The luma plane after reconstructing the macroblock at (`col`, `row`).
pub open spec fn recon_spec(plane: Seq<u8>, w: int, col: int, row: int, hm: MbHeaderModel, rm: Seq<Option<Seq<i32>>>, qp: u32) -> Seq<u8> {
    recon_loop(plane, w, col, row, hm, rm, qp, 0, Seq::new(16, |i: int| None::<Intra4x4Mode>))
}

proof fn lemma_write_loop_len(plane: Seq<u8>, w: int, bx: int, by: int, blk: Seq<u8>, k: int)
    ensures
        write_loop(plane, w, bx, by, blk, k).len() == plane.len(),
    decreases 16 - k,
{
    if 0 <= k < 16 {
        let py = by + k / 4;
        let px = bx + k % 4;
        let next = if py < w && px < w && 0 <= py * w + px < plane.len() { plane.update(py * w + px, blk[k]) } else { plane };
        lemma_write_loop_len(next, w, bx, by, blk, k + 1);
    }
}

/// Reconstruct the sixteen luma 4×4 blocks of the macroblock at
/// (`mb_col`, `mb_row`) in block-scan order: resolve each block's mode
/// against the modes above and to the left inside the macroblock (DC for
/// an I_16x16 macroblock or a mode out of range), predict from the
/// samples already in the plane (DC when a neighbour is missing), add the
/// residual, and write the block back.
fn reconstruct_luma_block_raster(
    y_plane: &mut Vec<u8>,
    pic_w: usize,
    mb_col: usize,
    mb_row: usize,
    header: &MacroblockHeader,
    residuals: &MacroblockResiduals,
    qp_y: u32,
)
    requires
        pic_w > 0,
        mb_col * 16 + 16 <= pic_w,
        (mb_row * 16 + 16) * pic_w <= old(y_plane)@.len(),
        header_small(header.model()),
    ensures
        final(y_plane)@ == recon_spec(old(y_plane)@, pic_w as int, mb_col as int, mb_row as int, header.model(), residuals.model(), qp_y),
{
    let ghost hm = header.model();
    let ghost rm = residuals.model();
    let ghost len = y_plane@.len();
    let plane_len = y_plane.len();
    let zs = z_scan_4x4();
    proof {
        crate::mb::lemma_zscan_entries();
        lemma_z_scan_index_inverts();
    }
    let mut local_modes: [Option<Intra4x4Mode>; 16] = [None; 16];
    assert(local_modes@ =~= Seq::new(16, |i: int| None::<Intra4x4Mode>));
    assert(mb_row * 16 + 16 <= (mb_row * 16 + 16) * pic_w) by (nonlinear_arith)
        requires
            pic_w > 0;
    let mut k: usize = 0;
    while k < 16
        invariant
            k <= 16,
            zs@ == zscan_spec(),
            y_plane@.len() == len,
            len == plane_len,
            pic_w > 0,
            mb_col * 16 + 16 <= pic_w,
            (mb_row * 16 + 16) * pic_w <= len,
            mb_row * 16 + 16 <= len,
            hm == header.model(),
            rm == residuals.model(),
            header_small(hm),
            forall|j: int| 0 <= j < 16 ==> {
                let (x, y) = #[trigger] zscan_spec()[j];
                &&& x < 4 && y < 4
                &&& (x / 2) + 2 * (y / 2) == j / 4
            },
            forall|j: int| 0 <= j < 16 ==> {
                let (x, y) = #[trigger] zscan_spec()[j];
                z_scan_index_spec(x as int, y as int) == j
            },
            recon_spec(old(y_plane)@, pic_w as int, mb_col as int, mb_row as int, hm, rm, qp_y)
                == recon_loop(y_plane@, pic_w as int, mb_col as int, mb_row as int, hm, rm, qp_y, k as int, local_modes@),
        decreases 16 - k,
    {
        let (sub_x, sub_y) = zs[k];
        let ghost kk = k as int;
        assert(zscan_spec()[kk] == (sub_x, sub_y));
        let blk_raster = sub_y * 4 + sub_x;
        let predicted_mode_idx = predict_intra_4x4_mode(&local_modes, sub_x, sub_y);
        let resolved_mode = match &header.intra_4x4_modes {
            Some(info) => {
                let z = z_scan_index(sub_x, sub_y);
                assert(z == k);
                let rec = info.records[z];
                assert(rec == info.records@[kk]);
                match resolve_intra4x4_mode(rec, predicted_mode_idx) {
                    Ok(m) => m,
                    Err(_) => Intra4x4Mode::Dc,
                }
            },
            None => Intra4x4Mode::Dc,
        };
        assert(resolved_mode == resolved_mode_spec(hm, kk, predicted_mode_idx));
        local_modes[blk_raster] = Some(resolved_mode);
        let block_x = mb_col * 16 + sub_x * 4;
        let block_y = mb_row * 16 + sub_y * 4;
        assert((block_y + 4) * pic_w <= (mb_row * 16 + 16) * pic_w) by (nonlinear_arith)
            requires
                block_y + 4 <= mb_row * 16 + 16,
                pic_w > 0;
        let n = build_neighbors_4x4(y_plane.as_slice(), pic_w, block_x, block_y);
        let predicted = match predict_4x4(resolved_mode, &n) {
            Ok(p) => p,
            Err(_) => match predict_4x4(Intra4x4Mode::Dc, &n) {
                Ok(p) => p,
                Err(_) => [128u8; 16],
            },
        };
        let final_block = match &residuals.luma_4x4[blk_raster] {
            Some(level_block) => add_residual(&predicted, level_block, qp_y),
            None => predicted,
        };
        assert(rm[blk_raster as int] == crate::mb::block_model(residuals.luma_4x4@[blk_raster as int]));
        proof { lemma_write_loop_len(y_plane@, pic_w as int, block_x as int, block_y as int, final_block@, 0); }
        write_block(y_plane, pic_w, block_x, block_y, &final_block);
        k += 1;
    }
}

// ─────────────────────────────────────────────────────────────────────
// Mode-record bounds
// ─────────────────────────────────────────────────────────────────────

proof fn lemma_mode_records_small(s: Seq<u8>, p: int, i: int, recs: Seq<Intra4x4ModeRecord>)
    requires
        0 <= i,
        recs.len() == 16,
        records_small(recs),
    ensures
        mode_records_loop(s, p, i, recs).0 matches Ok(r) ==> r.len() == 16 && records_small(r),
    decreases 16 - i,
{
    if i < 16 {
        let (b, p1) = crate::bitreader::bit_spec(s, p);
        if let Ok(flag) = b {
            if flag != 0 {
                lemma_mode_records_small(s, p1, i + 1, recs.update(i, Intra4x4ModeRecord::UsePredicted));
            } else {
                let (r, q2) = bits_spec(s, p1, 3);
                if let Ok(v) = r {
                    lemma_bits_value_bound(s, p1, 3);
                    reveal_with_fuel(p2, 4);
                    assert(v < 8);
                    let recs2 = recs.update(i, Intra4x4ModeRecord::Explicit { rem: v as u8 });
                    assert(records_small(recs2));
                    lemma_mode_records_small(s, q2, i + 1, recs2);
                }
            }
        }
    }
}

/// Every header the parser returns has 3-bit mode remainders.
pub proof fn lemma_header_small(s: Seq<u8>, p: int)
    ensures
        header_spec(s, p).0 matches Ok(hm) ==> header_small(hm),
{
    let init = Seq::new(16, |i: int| Intra4x4ModeRecord::UsePredicted);
    assert(records_small(init));
    let (r1, p1) = crate::bitreader::ue_spec(s, p);
    if let Ok(raw) = r1 {
        lemma_mode_records_small(s, p1, 0, init);
    }
}

// ─────────────────────────────────────────────────────────────────────
// Macroblock loop helpers
// ─────────────────────────────────────────────────────────────────────

/// Wrap a running QP into 0..=51.
pub fn wrap_qp(qp: i64) -> (r: i32)
    ensures
        r as int == qp % 52,
        0 <= r <= 51,
{
    let q = qp % 52;
    let r = if q < 0 { q + 52 } else { q };
    r as i32
}

/// The grey level a macroblock that cannot be reconstructed is filled
/// with, by type.
pub open spec fn mb_signature_spec(t: MbType) -> u8 {
    match t {
        MbType::INxN => 100,
        MbType::I16x16 { .. } => 150,
        MbType::IPcm => 200,
    }
}

/// The fill level for a macroblock.
pub fn mb_signature(h: &MacroblockHeader) -> (r: u8)
    ensures
        r == mb_signature_spec(h.mb_type),
{
    match h.mb_type {
        MbType::INxN => 100,
        MbType::I16x16 { .. } => 150,
        MbType::IPcm => 200,
    }
}

/// Set `n` samples from offset `off + c` on to `val` (samples outside the
/// plane are skipped).
pub open spec fn fill_cols(plane: Seq<u8>, off: int, n: int, c: int, val: u8) -> Seq<u8>
    decreases n - c,
{
    if c >= n {
        plane
    } else {
        let next = if 0 <= off + c < plane.len() { plane.update(off + c, val) } else { plane };
        fill_cols(next, off, n, c + 1, val)
    }
}

/// Set rows `r..n` of the `n`×`n` square at (`x0`, `y0`) to `val`.
pub open spec fn fill_rows(plane: Seq<u8>, w: int, x0: int, y0: int, n: int, r: int, val: u8) -> Seq<u8>
    decreases n - r,
{
    if r >= n {
        plane
    } else {
        fill_rows(fill_cols(plane, (y0 + r) * w + x0, n, 0, val), w, x0, y0, n, r + 1, val)
    }
}

/// The three planes after filling macroblock (`col`, `row`) with `val`:
/// its 16×16 luma square and its two 8×8 chroma squares.
pub open spec fn fill_spec(y: Seq<u8>, u: Seq<u8>, v: Seq<u8>, w: int, col: int, row: int, val: u8) -> (Seq<u8>, Seq<u8>, Seq<u8>) {
    (
        fill_rows(y, w, col * 16, row * 16, 16, 0, val),
        fill_rows(u, w / 2, col * 8, row * 8, 8, 0, val),
        fill_rows(v, w / 2, col * 8, row * 8, 8, 0, val),
    )
}

proof fn lemma_fill_cols_len(plane: Seq<u8>, off: int, n: int, c: int, val: u8)
    ensures
        fill_cols(plane, off, n, c, val).len() == plane.len(),
    decreases n - c,
{
    if c < n {
        let next = if 0 <= off + c < plane.len() { plane.update(off + c, val) } else { plane };
        lemma_fill_cols_len(next, off, n, c + 1, val);
    }
}

/// Fill an `n`×`n` square of `plane` at (`x0`, `y0`).
fn fill_square(plane: &mut Vec<u8>, w: usize, x0: usize, y0: usize, n: usize, val: u8)
    requires
        x0 + n <= w,
        (y0 + n) * w <= old(plane)@.len(),
    ensures
        final(plane)@ == fill_rows(old(plane)@, w as int, x0 as int, y0 as int, n as int, 0, val),
{
    let ghost target = fill_rows(old(plane)@, w as int, x0 as int, y0 as int, n as int, 0, val);
    let len = plane.len();
    let mut r: usize = 0;
    while r < n
        invariant
            r <= n,
            plane@.len() == len,
            x0 + n <= w,
            (y0 + n) * w <= len,
            target == fill_rows(plane@, w as int, x0 as int, y0 as int, n as int, r as int, val),
        decreases n - r,
    {
        assert((y0 + r) * w + w <= (y0 + n) * w && y0 + r < (y0 + n) * w + 1) by (nonlinear_arith)
            requires
                r < n,
                x0 + n <= w;
        let off = (y0 + r) * w + x0;
        let ghost row_target = fill_cols(plane@, off as int, n as int, 0, val);
        let mut c: usize = 0;
        while c < n
            invariant
                c <= n,
                plane@.len() == len,
                off + n <= len,
                row_target == fill_cols(plane@, off as int, n as int, c as int, val),
            decreases n - c,
        {
            plane.set(off + c, val);
            c += 1;
        }
        proof { lemma_fill_cols_len(plane@, off as int, n as int, n as int, val); }
        r += 1;
    }
}

/// Fill macroblock (`mb_col`, `mb_row`) with `val` in all three planes.
fn fill_mb_solid(y: &mut Vec<u8>, u: &mut Vec<u8>, v: &mut Vec<u8>, pic_w: usize, mb_col: usize, mb_row: usize, val: u8)
    requires
        mb_col * 16 + 16 <= pic_w,
        (mb_row * 16 + 16) * pic_w <= old(y)@.len(),
        (mb_row * 8 + 8) * (pic_w / 2) <= old(u)@.len(),
        (mb_row * 8 + 8) * (pic_w / 2) <= old(v)@.len(),
    ensures
        (final(y)@, final(u)@, final(v)@) == fill_spec(old(y)@, old(u)@, old(v)@, pic_w as int, mb_col as int, mb_row as int, val),
{
    // The luma plane's length fits in `usize`.
    let _len = y.len();
    assert(mb_row * 16 + 16 <= (mb_row * 16 + 16) * pic_w) by (nonlinear_arith)
        requires
            mb_col * 16 + 16 <= pic_w;
    assert(mb_col * 8 + 8 <= pic_w / 2);
    fill_square(y, pic_w, mb_col * 16, mb_row * 16, 16, val);
    fill_square(u, pic_w / 2, mb_col * 8, mb_row * 8, 8, val);
    fill_square(v, pic_w / 2, mb_col * 8, mb_row * 8, 8, val);
}

// ─────────────────────────────────────────────────────────────────────
// NAL units
// ─────────────────────────────────────────────────────────────────────

/// The RBSPs of the last SPS, PPS and slice NAL units from scan position
/// `pos` on (with the ones found so far), and whether that slice is an
/// IDR slice; an empty unit or a set forbidden bit stops the walk with an
/// error, and a missing kind is an `InvalidNalFraming` error.
pub open spec fn collect_loop(s: Seq<u8>, pos: int, sps: Option<Seq<u8>>, pps: Option<Seq<u8>>, sl: Option<Seq<u8>>, idr: bool) -> Result<(Seq<u8>, Seq<u8>, Seq<u8>, bool), DecodeError>
    decreases s.len() - pos,
    when 0 <= pos <= s.len()
{
    match next_unit_spec(s, pos) {
        None => match (sps, pps, sl) {
            (Some(a), Some(b), Some(c)) => Ok((a, b, c, idr)),
            _ => Err(DecodeError::InvalidNalFraming),
        },
        Some((Err(e), _)) => Err(e),
        Some((Ok(u), q)) => {
            proof { lemma_next_unit_advances(s, pos); }
            let rbsp = rbsp_from(u.subrange(1, u.len() as int), 0);
            if u[0] >= 0x80 {
                Err(DecodeError::InvalidNalFraming)
            } else {
                let t = u[0] % 32;
                if t == 7 {
                    collect_loop(s, q, Some(rbsp), pps, sl, idr)
                } else if t == 8 {
                    collect_loop(s, q, sps, Some(rbsp), sl, idr)
                } else if t == 5 {
                    collect_loop(s, q, sps, pps, Some(rbsp), true)
                } else if t == 1 {
                    collect_loop(s, q, sps, pps, Some(rbsp), false)
                } else {
                    collect_loop(s, q, sps, pps, sl, idr)
                }
            }
        },
    }
}

/// The parameter sets, the slice RBSP and whether the slice is IDR.
#[verifier::opaque]
pub open spec fn collect_spec(s: Seq<u8>) -> Result<(Sps, Pps, Seq<u8>, bool), DecodeError> {
    match collect_loop(s, 0, None, None, None, false) {
        Err(e) => Err(e),
        Ok((a, b, c, idr)) => match sps_spec(a) {
            Err(e) => Err(e),
            Ok(sps) => match pps_spec(b) {
                Err(e) => Err(e),
                Ok(pps) => Ok((sps, pps, c, idr)),
            },
        },
    }
}

/// An optional byte vector as plain values.
pub open spec fn opt_bytes(o: Option<Vec<u8>>) -> Option<Seq<u8>> {
    match o {
        Some(v) => Some(v@),
        None => None,
    }
}

/// At most `n` bytes, if present.
pub open spec fn opt_len_le(o: Option<Vec<u8>>, n: int) -> bool {
    o matches Some(v) ==> v@.len() <= n
}

/// Walk the stream and return the RBSPs of the last SPS, PPS and slice
/// units and whether the slice is an IDR slice.
fn collect_rbsps(bitstream: &[u8]) -> (res: Result<(Vec<u8>, Vec<u8>, Vec<u8>, bool), DecodeError>)
    ensures
        match collect_loop(bitstream@, 0, None, None, None, false) {
            Ok((a, b, c, idr)) => res matches Ok((va, vb, vc, i)) && va@ == a && vb@ == b && vc@ == c && i == idr
                && va@.len() <= bitstream@.len() && vb@.len() <= bitstream@.len() && vc@.len() <= bitstream@.len(),
            Err(e) => res matches Err(e2) && e2 == e,
        },
{
    let ghost s = bitstream@;
    let mut sps_rbsp: Option<Vec<u8>> = None;
    let mut pps_rbsp: Option<Vec<u8>> = None;
    let mut slice_rbsp: Option<Vec<u8>> = None;
    let mut slice_is_idr = false;
    let mut it = NalUnitIterator::new(bitstream);
    loop
        invariant
            it.stream() == s,
            s == bitstream@,
            0 <= it.position() <= s.len(),
            opt_len_le(sps_rbsp, s.len() as int),
            opt_len_le(pps_rbsp, s.len() as int),
            opt_len_le(slice_rbsp, s.len() as int),
            collect_loop(s, 0, None, None, None, false)
                == collect_loop(s, it.position(), opt_bytes(sps_rbsp), opt_bytes(pps_rbsp), opt_bytes(slice_rbsp), slice_is_idr),
        ensures
            next_unit_spec(s, it.position()) is None,
        decreases s.len() - it.position(),
    {
        let ghost pos = it.position();
        proof { lemma_next_unit_advances(s, pos); }
        let unit = match it.next() {
            None => { break; },
            Some(Ok(u)) => u,
            Some(Err(e)) => { return Err(e); },
        };
        let payload = unit.payload();
        let rbsp = strip_emulation_prevention(payload);
        let t = match unit.unit_type() {
            Ok(t) => t,
            Err(e) => { return Err(e); },
        };
        if t == nut::SPS {
            sps_rbsp = Some(rbsp);
        } else if t == nut::PPS {
            pps_rbsp = Some(rbsp);
        } else if t == nut::IDR_SLICE {
            slice_rbsp = Some(rbsp);
            slice_is_idr = true;
        } else if t == nut::NON_IDR_SLICE {
            slice_rbsp = Some(rbsp);
            slice_is_idr = false;
        }
    }
    match (sps_rbsp, pps_rbsp, slice_rbsp) {
        (Some(a), Some(b), Some(c)) => Ok((a, b, c, slice_is_idr)),
        _ => Err(DecodeError::InvalidNalFraming),
    }
}

/// Walk the stream and return the SPS, the PPS, the slice RBSP and
/// whether the slice is an IDR slice.
fn collect_units(bitstream: &[u8]) -> (res: Result<(Sps, Pps, Vec<u8>, bool), DecodeError>)
    requires
        bitstream@.len() * 8 <= usize::MAX,
    ensures
        match collect_spec(bitstream@) {
            Ok((sps, pps, c, idr)) => res matches Ok((a, b, v, i)) && a == sps && b == pps && v@ == c && i == idr
                && v@.len() <= bitstream@.len() && a.log2_max_frame_num_minus4 <= 12,
            Err(e) => res matches Err(e2) && e2 == e,
        },
{
    proof { reveal(collect_spec); }
    let (sps_bytes, pps_bytes, slice_bytes, slice_is_idr) = match collect_rbsps(bitstream) {
        Ok(v) => v,
        Err(e) => { return Err(e); },
    };
    let sps = match Sps::parse(sps_bytes.as_slice()) {
        Ok(v) => v,
        Err(e) => { return Err(e); },
    };
    let pps = match Pps::parse(pps_bytes.as_slice()) {
        Ok(v) => v,
        Err(e) => { return Err(e); },
    };
    Ok((sps, pps, slice_bytes, slice_is_idr))
}

// ─────────────────────────────────────────────────────────────────────
// The frame
// ─────────────────────────────────────────────────────────────────────

/// A decoded frame: luma `width`×`height`, chroma at half resolution.
#[derive(Clone, Debug, PartialEq)]
pub struct DecodedFrame {
    pub width: u16,
    pub height: u16,
    pub y: Vec<u8>,
    pub u: Vec<u8>,
    pub v: Vec<u8>,
}

/// The decoder state between macroblocks: the three planes, the bit
/// position in the slice and the running QP.
pub type MbState = (Seq<u8>, Seq<u8>, Seq<u8>, int, int);

/// Errors after which a macroblock's header parse falls back to a fill.
pub open spec fn header_fallback(e: DecodeError) -> bool {
    e is OutOfScope || e is CavlcInvalid
}

/// Errors after which a macroblock's residual decode falls back to a fill.
pub open spec fn residual_fallback(e: DecodeError) -> bool {
    e is OutOfScope || e is CavlcInvalid || e is BitstreamTruncated
}

/// Decode macroblock (`col`, `row`) of the slice `s` from state `st`: a
/// header the decoder cannot parse fills the macroblock with 128; one it
/// can updates the QP and then either reconstructs the luma or, when the
/// residual cannot be decoded, fills the macroblock with its type's grey
/// level.
#[verifier::opaque]
pub open spec fn mb_step(s: Seq<u8>, w: int, col: int, row: int, st: MbState) -> Result<MbState, DecodeError> {
    let (y, u, v, pos, qp) = st;
    let (hr, p1) = header_spec(s, pos);
    match hr {
        Err(e) => if header_fallback(e) {
            let (y2, u2, v2) = fill_spec(y, u, v, w, col, row, 128);
            Ok((y2, u2, v2, p1, qp))
        } else {
            Err(e)
        },
        Ok(hm) => {
            let qp2 = (qp + hm.4) % 52;
            let (rr, p2) = residuals_spec(hm, s, p1);
            match rr {
                Err(e) => if residual_fallback(e) {
                    let (y2, u2, v2) = fill_spec(y, u, v, w, col, row, mb_signature_spec(hm.0));
                    Ok((y2, u2, v2, p2, qp2))
                } else {
                    Err(e)
                },
                Ok(rm) => Ok((recon_spec(y, w, col, row, hm, rm, qp2 as u32), u, v, p2, qp2)),
            }
        },
    }
}

/// Decode macroblocks `i..n` in raster order, `cols` per row.
pub open spec fn mb_loop(s: Seq<u8>, w: int, cols: int, n: int, i: int, st: MbState) -> Result<MbState, DecodeError>
    decreases n - i,
{
    if i >= n || cols <= 0 {
        Ok(st)
    } else {
        match mb_step(s, w, i % cols, i / cols, st) {
            Err(e) => Err(e),
            Ok(st2) => mb_loop(s, w, cols, n, i + 1, st2),
        }
    }
}

/// The largest `pic_width_in_mbs_minus1` (or height) whose pixel size
/// fits in a `u32`.
pub open spec fn max_mbs_minus1() -> u32 {
    0x0fff_fffe
}

/// What `decode_iframe` returns for the stream `s`: (width, height, Y, U,
/// V). Pictures whose size does not fit in memory, and POC lsb fields
/// wider than 32 bits, are reported as out of scope.
pub open spec fn iframe_spec(s: Seq<u8>) -> Result<(u16, u16, Seq<u8>, Seq<u8>, Seq<u8>), DecodeError> {
    match collect_spec(s) {
        Err(e) => Err(e),
        Ok((sps, pps, sl, idr)) => {
            if sps.pic_width_in_mbs_minus1 > max_mbs_minus1() || sps.pic_height_in_map_units_minus1 > max_mbs_minus1() {
                Err(DecodeError::OutOfScope("picture size out of range"))
            } else {
                let w = (sps.pic_width_in_mbs_minus1 + 1) * 16;
                let h = (sps.pic_height_in_map_units_minus1 + 1) * 16;
                if w * h > usize::MAX {
                    Err(DecodeError::OutOfScope("picture size out of range"))
                } else if !slice_params_ok(sps) {
                    Err(DecodeError::OutOfScope("pic_order_cnt_lsb wider than 32 bits"))
                } else {
                    let (hr, p0) = slice_header_spec(sl, 0, sps, pps, idr);
                    match hr {
                        Err(e) => Err(e),
                        Ok(sh) => {
                            let st0: MbState = (
                                Seq::new((w * h) as nat, |i: int| 128u8),
                                Seq::new(((w / 2) * (h / 2)) as nat, |i: int| 128u8),
                                Seq::new(((w / 2) * (h / 2)) as nat, |i: int| 128u8),
                                p0,
                                sh.slice_qp_y as int,
                            );
                            match mb_loop(sl, w, w / 16, (w / 16) * (h / 16), 0, st0) {
                                Err(e) => Err(e),
                                Ok((y, u, v, _, _)) => Ok((w as u16, h as u16, y, u, v)),
                            }
                        },
                    }
                }
            }
        },
    }
}

proof fn lemma_recon_len(plane: Seq<u8>, w: int, col: int, row: int, hm: MbHeaderModel, rm: Seq<Option<Seq<i32>>>, qp: u32, k: int, modes: Seq<Option<Intra4x4Mode>>)
    ensures
        recon_loop(plane, w, col, row, hm, rm, qp, k, modes).len() == plane.len(),
    decreases 16 - k,
{
    if 0 <= k < 16 {
        let (p2, m2) = block_step(plane, w, col, row, hm, rm, qp, k, modes);
        let (x, y) = zscan_spec()[k];
        let blk = y * 4 + x;
        let mode = resolved_mode_spec(hm, k, predicted_mode_spec(modes, x as int, y as int));
        let bx = col * 16 + x * 4;
        let by = row * 16 + y * 4;
        let pred = prediction_spec(mode, neighbors_spec(plane, w, bx, by));
        let fin = match rm[blk as int] {
            Some(lv) => with_residual(pred, lv, qp),
            None => pred,
        };
        lemma_write_loop_len(plane, w, bx, by, fin, 0);
        lemma_recon_len(p2, w, col, row, hm, rm, qp, k + 1, m2);
    }
}

proof fn lemma_fill_rows_len(plane: Seq<u8>, w: int, x0: int, y0: int, n: int, r: int, val: u8)
    ensures
        fill_rows(plane, w, x0, y0, n, r, val).len() == plane.len(),
    decreases n - r,
{
    if r < n {
        lemma_fill_cols_len(plane, (y0 + r) * w + x0, n, 0, val);
        lemma_fill_rows_len(fill_cols(plane, (y0 + r) * w + x0, n, 0, val), w, x0, y0, n, r + 1, val);
    }
}

proof fn lemma_mb_bounds(pic_w: int, pic_h: int, cols: int, rows: int, col: int, row: int)
    by (nonlinear_arith)
    requires
        pic_w >= 16,
        pic_h >= 16,
        pic_w % 16 == 0,
        pic_h % 16 == 0,
        cols == pic_w / 16,
        rows == pic_h / 16,
        0 <= col < cols,
        0 <= row < rows,
    ensures
        col * 16 + 16 <= pic_w,
        (row * 16 + 16) * pic_w <= pic_w * pic_h,
        (row * 8 + 8) * (pic_w / 2) <= (pic_w / 2) * (pic_h / 2),
        col * 8 + 8 <= pic_w / 2,
{
    assert(col + 1 <= cols);
    assert(row + 1 <= rows);
    assert(row * 16 + 16 <= pic_h);
    assert(row * 8 + 8 <= pic_h / 2);
}

/// The bounds under which macroblock (`col`, `row`) lies inside planes of
/// a `w`×`h` picture.
pub open spec fn mb_fits(w: int, h: int, col: int, row: int, ylen: int, clen: int) -> bool {
    &&& w >= 16 && h >= 16 && w % 16 == 0 && h % 16 == 0
    &&& 0 <= col < w / 16 && 0 <= row < h / 16
    &&& ylen == w * h
    &&& clen == (w / 2) * (h / 2)
}

/// Decode macroblock (`mb_col`, `mb_row`) from `br` into the planes.
fn decode_mb(
    br: &mut BitReader,
    y_plane: &mut Vec<u8>,
    u_plane: &mut Vec<u8>,
    v_plane: &mut Vec<u8>,
    pic_w: usize,
    pic_h: usize,
    mb_col: usize,
    mb_row: usize,
    qp_y: &mut i32,
) -> (res: Result<(), DecodeError>)
    requires
        mb_fits(pic_w as int, pic_h as int, mb_col as int, mb_row as int, old(y_plane)@.len() as int, old(u_plane)@.len() as int),
        old(v_plane)@.len() == old(u_plane)@.len(),
    ensures
        final(br).data() == old(br).data(),
        final(y_plane)@.len() == old(y_plane)@.len(),
        final(u_plane)@.len() == old(u_plane)@.len(),
        final(v_plane)@.len() == old(v_plane)@.len(),
        match mb_step(old(br).data(), pic_w as int, mb_col as int, mb_row as int,
            (old(y_plane)@, old(u_plane)@, old(v_plane)@, old(br).pos(), *old(qp_y) as int)) {
            Ok((y2, u2, v2, p2, q2)) => res is Ok && final(y_plane)@ == y2 && final(u_plane)@ == u2 && final(v_plane)@ == v2
                && final(br).pos() == p2 && *final(qp_y) as int == q2,
            Err(e) => res matches Err(e2) && e2 == e,
        },
{
    let ghost s = br.data();
    let ghost y0 = y_plane@;
    let ghost u0 = u_plane@;
    let ghost v0 = v_plane@;
    proof {
        reveal(mb_step);
        lemma_mb_bounds(pic_w as int, pic_h as int, (pic_w / 16) as int, (pic_h / 16) as int, mb_col as int, mb_row as int);
        lemma_header_small(s, br.pos());
    }
    let mb_header = match parse_macroblock_header(br) {
        Ok(h) => h,
        Err(e) => {
            match e {
                DecodeError::OutOfScope(_) | DecodeError::CavlcInvalid => {
                    fill_mb_solid(y_plane, u_plane, v_plane, pic_w, mb_col, mb_row, 128);
                    proof {
                        lemma_fill_rows_len(y0, pic_w as int, mb_col * 16, mb_row * 16, 16, 0, 128);
                        lemma_fill_rows_len(u0, (pic_w / 2) as int, mb_col * 8, mb_row * 8, 8, 0, 128);
                        lemma_fill_rows_len(v0, (pic_w / 2) as int, mb_col * 8, mb_row * 8, 8, 0, 128);
                    }
                    return Ok(());
                },
                _ => { return Err(e); },
            }
        },
    };
    *qp_y = wrap_qp(*qp_y as i64 + mb_header.mb_qp_delta as i64);
    let residuals = match decode_macroblock_residuals(br, &mb_header) {
        Ok(r) => r,
        Err(e) => {
            match e {
                DecodeError::OutOfScope(_) | DecodeError::CavlcInvalid | DecodeError::BitstreamTruncated => {
                    let sig = mb_signature(&mb_header);
                    fill_mb_solid(y_plane, u_plane, v_plane, pic_w, mb_col, mb_row, sig);
                    proof {
                        lemma_fill_rows_len(y0, pic_w as int, mb_col * 16, mb_row * 16, 16, 0, sig);
                        lemma_fill_rows_len(u0, (pic_w / 2) as int, mb_col * 8, mb_row * 8, 8, 0, sig);
                        lemma_fill_rows_len(v0, (pic_w / 2) as int, mb_col * 8, mb_row * 8, 8, 0, sig);
                    }
                    return Ok(());
                },
                _ => { return Err(e); },
            }
        },
    };
    let qp_y_u = *qp_y as u32;
    reconstruct_luma_block_raster(y_plane, pic_w, mb_col, mb_row, &mb_header, &residuals, qp_y_u);
    proof {
        lemma_recon_len(y0, pic_w as int, mb_col as int, mb_row as int, mb_header.model(), residuals.model(), qp_y_u, 0,
            Seq::new(16, |i: int| None::<Intra4x4Mode>));
    }
    Ok(())
}

/// Decode all macroblocks of the slice in raster order.
fn decode_mbs(
    br: &mut BitReader,
    y_plane: &mut Vec<u8>,
    u_plane: &mut Vec<u8>,
    v_plane: &mut Vec<u8>,
    pic_w: usize,
    pic_h: usize,
    qp_y: i32,
) -> (res: Result<(), DecodeError>)
    requires
        pic_w >= 16 && pic_h >= 16 && pic_w % 16 == 0 && pic_h % 16 == 0,
        old(y_plane)@.len() == pic_w * pic_h,
        old(u_plane)@.len() == (pic_w / 2) * (pic_h / 2),
        old(v_plane)@.len() == (pic_w / 2) * (pic_h / 2),
    ensures
        match mb_loop(old(br).data(), pic_w as int, (pic_w / 16) as int, ((pic_w / 16) * (pic_h / 16)) as int, 0,
            (old(y_plane)@, old(u_plane)@, old(v_plane)@, old(br).pos(), qp_y as int)) {
            Ok((y2, u2, v2, _, _)) => res is Ok && final(y_plane)@ == y2 && final(u_plane)@ == u2 && final(v_plane)@ == v2,
            Err(e) => res matches Err(e2) && e2 == e,
        },
{
    let ghost s = br.data();
    let mb_cols = pic_w / 16;
    let mb_rows = pic_h / 16;
    let ghost n = (mb_cols * mb_rows) as int;
    let ghost st0: MbState = (y_plane@, u_plane@, v_plane@, br.pos(), qp_y as int);
    let ghost ylen = y_plane@.len();
    let ghost clen = u_plane@.len();
    let mut qp = qp_y;
    let mut mb_row: usize = 0;
    while mb_row < mb_rows
        invariant
            mb_row <= mb_rows,
            br.data() == s,
            s == old(br).data(),
            mb_cols == pic_w / 16,
            mb_rows == pic_h / 16,
            pic_w >= 16 && pic_h >= 16 && pic_w % 16 == 0 && pic_h % 16 == 0,
            ylen == pic_w * pic_h,
            clen == (pic_w / 2) * (pic_h / 2),
            y_plane@.len() == ylen,
            u_plane@.len() == clen,
            v_plane@.len() == clen,
            n == mb_cols * mb_rows,
            st0 == (old(y_plane)@, old(u_plane)@, old(v_plane)@, old(br).pos(), qp_y as int),
            mb_loop(s, pic_w as int, mb_cols as int, n, 0, st0)
                == mb_loop(s, pic_w as int, mb_cols as int, n, (mb_row * mb_cols) as int, (y_plane@, u_plane@, v_plane@, br.pos(), qp as int)),
        decreases mb_rows - mb_row,
    {
        let mut mb_col: usize = 0;
        while mb_col < mb_cols
            invariant
                mb_col <= mb_cols,
                mb_row < mb_rows,
                br.data() == s,
                mb_cols == pic_w / 16,
                mb_rows == pic_h / 16,
                pic_w >= 16 && pic_h >= 16 && pic_w % 16 == 0 && pic_h % 16 == 0,
                ylen == pic_w * pic_h,
                clen == (pic_w / 2) * (pic_h / 2),
                y_plane@.len() == ylen,
                u_plane@.len() == clen,
                v_plane@.len() == clen,
                n == mb_cols * mb_rows,
                mb_loop(s, pic_w as int, mb_cols as int, n, 0, st0)
                    == mb_loop(s, pic_w as int, mb_cols as int, n, (mb_row * mb_cols + mb_col) as int, (y_plane@, u_plane@, v_plane@, br.pos(), qp as int)),
                s == old(br).data(),
                st0 == (old(y_plane)@, old(u_plane)@, old(v_plane)@, old(br).pos(), qp_y as int),
            decreases mb_cols - mb_col,
        {
            let ghost i = (mb_row * mb_cols + mb_col) as int;
            assert(i < n && i % (mb_cols as int) == mb_col && i / (mb_cols as int) == mb_row) by (nonlinear_arith)
                requires
                    i == mb_row * mb_cols + mb_col,
                    mb_col < mb_cols,
                    mb_row < mb_rows,
                    n == mb_cols * mb_rows;
            match decode_mb(br, y_plane, u_plane, v_plane, pic_w, pic_h, mb_col, mb_row, &mut qp) {
                Ok(()) => {},
                Err(e) => { return Err(e); },
            }
            mb_col += 1;
        }
        assert((mb_row * mb_cols + mb_cols) as int == ((mb_row + 1) * mb_cols) as int) by (nonlinear_arith);
        mb_row += 1;
    }
    assert((mb_rows * mb_cols) as int == n) by (nonlinear_arith)
        requires
            n == mb_cols * mb_rows;
    Ok(())
}

/// Decode one IDR I-frame from an Annex-B byte stream.
pub fn decode_iframe(bitstream: &[u8]) -> (res: Result<DecodedFrame, DecodeError>)
    requires
        bitstream@.len() * 8 <= usize::MAX,
    ensures
        match iframe_spec(bitstream@) {
            Ok((w, h, y, u, v)) => res matches Ok(f) && f.width == w && f.height == h && f.y@ == y && f.u@ == u && f.v@ == v,
            Err(e) => res matches Err(e2) && e2 == e,
        },
{
    let (sps, pps, slice_rbsp, slice_is_idr) = match collect_units(bitstream) {
        Ok(v) => v,
        Err(e) => { return Err(e); },
    };
    if sps.pic_width_in_mbs_minus1 > 0x0fff_fffe || sps.pic_height_in_map_units_minus1 > 0x0fff_fffe {
        return Err(DecodeError::OutOfScope("picture size out of range"));
    }
    let pic_w = sps.pic_width() as usize;
    let pic_h = sps.pic_height() as usize;
    if pic_w == 0 || pic_h == 0 {
        return Err(DecodeError::InvalidNalFraming);
    }
    let y_len = match pic_w.checked_mul(pic_h) {
        Some(n) => n,
        None => { return Err(DecodeError::OutOfScope("picture size out of range")); },
    };
    assert((pic_w / 2) * (pic_h / 2) <= pic_w * pic_h) by (nonlinear_arith);
    let c_len = (pic_w / 2) * (pic_h / 2);
    if sps.pic_order_cnt_type == 0 && sps.log2_max_pic_order_cnt_lsb_minus4 > 28 {
        return Err(DecodeError::OutOfScope("pic_order_cnt_lsb wider than 32 bits"));
    }
    let mut y_plane = vec![128u8; y_len];
    let mut u_plane = vec![128u8; c_len];
    let mut v_plane = vec![128u8; c_len];
    assert(y_plane@ =~= Seq::new(y_len as nat, |i: int| 128u8));
    assert(u_plane@ =~= Seq::new(c_len as nat, |i: int| 128u8));
    assert(v_plane@ =~= Seq::new(c_len as nat, |i: int| 128u8));
    let mut br = BitReader::new(slice_rbsp.as_slice());
    let sh = match SliceHeader::parse_into(&mut br, &sps, &pps, slice_is_idr) {
        Ok(h) => h,
        Err(e) => { return Err(e); },
    };
    if sh.first_mb_in_slice != 0 {
        return Err(DecodeError::OutOfScope("multi-slice IDR not supported"));
    }
    match decode_mbs(&mut br, &mut y_plane, &mut u_plane, &mut v_plane, pic_w, pic_h, sh.slice_qp_y) {
        Ok(()) => {},
        Err(e) => { return Err(e); },
    }
    Ok(DecodedFrame { width: pic_w as u16, height: pic_h as u16, y: y_plane, u: u_plane, v: v_plane })
}

} // verus!
