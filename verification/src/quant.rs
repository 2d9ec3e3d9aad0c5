//! H.264 inverse quantization of 4×4 AC residual blocks (§8.5.9, Table 7-3)
//! with the default (flat, 16) weight scale.

use vstd::prelude::*;

use crate::DecodeError;

verus! {

/// normAdjust4×4(m, v) of Table 7-3.
pub open spec fn norm_adjust_spec(m: int, v: int) -> int {
    if m == 0 {
        if v == 0 { 10 } else if v == 1 { 16 } else { 13 }
    } else if m == 1 {
        if v == 0 { 11 } else if v == 1 { 18 } else { 14 }
    } else if m == 2 {
        if v == 0 { 13 } else if v == 1 { 20 } else { 16 }
    } else if m == 3 {
        if v == 0 { 14 } else if v == 1 { 23 } else { 18 }
    } else if m == 4 {
        if v == 0 { 16 } else if v == 1 { 25 } else { 20 }
    } else {
        if v == 0 { 18 } else if v == 1 { 29 } else { 23 }
    }
}

/// Position class of coefficient (i, j): 0 if both even, 1 if both odd,
/// 2 otherwise.
pub open spec fn position_class_spec(i: int, j: int) -> int {
    if i % 2 == 0 && j % 2 == 0 {
        0
    } else if i % 2 == 1 && j % 2 == 1 {
        1
    } else {
        2
    }
}

/// LevelScale4×4(m, i, j) with the flat weight scale 16.
pub open spec fn level_scale_spec(m: int, i: int, j: int) -> int {
    norm_adjust_spec(m, position_class_spec(i, j)) * 16
}

/// The dequantized coefficient for `level` at column `i`, row `j` and QP `qp`.
pub open spec fn dequant_spec(level: int, qp: int, i: int, j: int) -> int {
    let prod = level * level_scale_spec(qp % 6, i, j);
    if qp / 6 >= 4 {
        prod * crate::bitreader::p2((qp / 6 - 4) as nat)
    } else {
        (prod + crate::bitreader::p2((3 - qp / 6) as nat)) / (crate::bitreader::p2((4 - qp / 6) as nat) as int)
    }
}

/// Position class of coefficient (i, j).
pub fn position_class_4x4(i: usize, j: usize) -> (v: usize)
    ensures
        v == position_class_spec(i as int, j as int),
{
    let i_even = i % 2 == 0;
    let j_even = j % 2 == 0;
    if i_even && j_even {
        0
    } else if !i_even && !j_even {
        1
    } else {
        2
    }
}

fn norm_adjust_4x4(m: u32, v: usize) -> (r: i32)
    requires
        m < 6,
        v < 3,
    ensures
        r == norm_adjust_spec(m as int, v as int),
{
    match m {
        0 => if v == 0 { 10 } else if v == 1 { 16 } else { 13 },
        1 => if v == 0 { 11 } else if v == 1 { 18 } else { 14 },
        2 => if v == 0 { 13 } else if v == 1 { 20 } else { 16 },
        3 => if v == 0 { 14 } else if v == 1 { 23 } else { 18 },
        4 => if v == 0 { 16 } else if v == 1 { 25 } else { 20 },
        _ => if v == 0 { 18 } else if v == 1 { 29 } else { 23 },
    }
}

/// LevelScale4×4 with the default scaling list.
pub fn level_scale_4x4(m: u32, i: usize, j: usize) -> (r: i32)
    requires
        m < 6,
    ensures
        r == level_scale_spec(m as int, i as int, j as int),
{
    norm_adjust_4x4(m, position_class_4x4(i, j)) * 16
}

proof fn lemma_shift_facts(x: i32, k: u32)
    by (bit_vector)
    ensures
        -0x0800_0000 <= x < 0x0800_0000 ==> {
            &&& k == 0u32 ==> x << k == x
            &&& k == 1u32 ==> x << k == x * 2
            &&& k == 2u32 ==> x << k == x * 4
            &&& k == 3u32 ==> x << k == x * 8
            &&& k == 4u32 ==> x << k == x * 16
        },
        k == 1u32 ==> (x >= 0 ==> x >> k == x / 2) && (x < 0 ==> x >> k == -((-(x as int) + 1) / 2) as i32),
        k == 2u32 ==> (x >= 0 ==> x >> k == x / 4) && (x < 0 ==> x >> k == -((-(x as int) + 3) / 4) as i32),
        k == 3u32 ==> (x >= 0 ==> x >> k == x / 8) && (x < 0 ==> x >> k == -((-(x as int) + 7) / 8) as i32),
        k == 4u32 ==> (x >= 0 ==> x >> k == x / 16) && (x < 0 ==> x >> k == -((-(x as int) + 15) / 16) as i32),
        k == 0u32 ==> 1i32 << k == 1,
        k == 1u32 ==> 1i32 << k == 2,
        k == 2u32 ==> 1i32 << k == 4,
        k == 3u32 ==> 1i32 << k == 8,
{
}

proof fn lemma_shl(x: i32, k: u32)
    requires
        k <= 4,
        -0x0800_0000 <= x < 0x0800_0000,
    ensures
        (x << k) as int == x as int * crate::bitreader::p2(k as nat),
{
    reveal_with_fuel(crate::bitreader::p2, 5);
    lemma_shift_facts(x, k);
    if k == 0 {
        assert(crate::bitreader::p2(k as nat) == 1);
    } else if k == 1 {
        assert(crate::bitreader::p2(k as nat) == 2);
    } else if k == 2 {
        assert(crate::bitreader::p2(k as nat) == 4);
    } else if k == 3 {
        assert(crate::bitreader::p2(k as nat) == 8);
    } else {
        assert(crate::bitreader::p2(k as nat) == 16);
    }
}

proof fn lemma_asr(x: i32, k: u32)
    requires
        1 <= k <= 4,
    ensures
        (x >> k) as int == x as int / (crate::bitreader::p2(k as nat) as int),
{
    reveal_with_fuel(crate::bitreader::p2, 5);
    lemma_shift_facts(x, k);
}

/// A zero level dequantizes to zero at every QP from 0 to 51.
pub proof fn lemma_dequant_zero(qp: int, i: int, j: int)
    requires
        0 <= qp <= 51,
    ensures
        dequant_spec(0, qp, i, j) == 0,
{
    reveal_with_fuel(crate::bitreader::p2, 5);
    let q6 = qp / 6;
    let prod = 0 * level_scale_spec(qp % 6, i, j);
    assert(prod == 0);
    if q6 < 4 {
        let a = crate::bitreader::p2((3 - q6) as nat);
        let b = crate::bitreader::p2((4 - q6) as nat) as int;
        assert(0 < a < b) by {
            if q6 == 0 {} else if q6 == 1 {} else if q6 == 2 {} else {}
        }
        vstd::arithmetic::div_mod::lemma_basic_div(a as int, b);
        assert((prod + a) / b == 0);
    } else {
        assert(prod * crate::bitreader::p2((q6 - 4) as nat) == 0);
    }
}

/// Table 7-3 as the standard lists it: at QP 24 to 29 (no shift) a level
/// of 1 dequantizes to 16 × v, where v for QP % 6 = 0..5 is 10, 11, 13,
/// 14, 16, 18 at positions with both coordinates even, 16, 18, 20, 23,
/// 25, 29 with both odd, and 13, 14, 16, 18, 20, 23 otherwise.
pub proof fn lemma_dequant_table(m: int, i: int, j: int)
    requires
        0 <= m < 6,
        0 <= i < 4,
        0 <= j < 4,
    ensures
        dequant_spec(1, 24 + m, i, j) == 16 * (if i % 2 == 0 && j % 2 == 0 {
            seq![10int, 11, 13, 14, 16, 18][m]
        } else if i % 2 == 1 && j % 2 == 1 {
            seq![16int, 18, 20, 23, 25, 29][m]
        } else {
            seq![13int, 14, 16, 18, 20, 23][m]
        }),
{
    let qp = 24 + m;
    assert(qp / 6 == 4 && qp % 6 == m);
    assert(((qp / 6 - 4) as nat) == 0nat);
    assert(crate::bitreader::p2(0) == 1);
    let c = position_class_spec(i, j);
    assert(1 * level_scale_spec(m, i, j) == norm_adjust_spec(m, c) * 16);
    assert(dequant_spec(1, 24 + m, i, j) == norm_adjust_spec(m, c) * 16);
    if m == 0 {} else if m == 1 {} else if m == 2 {} else if m == 3 {} else if m == 4 {} else {}
}

/// Six QP steps double the dequantized value once the shift is to the
/// left (QP 24 and above).
pub proof fn lemma_dequant_six_steps_double(level: int, qp: int, i: int, j: int)
    requires
        qp >= 24,
    ensures
        dequant_spec(level, qp + 6, i, j) == 2 * dequant_spec(level, qp, i, j),
{
    let e = (qp / 6 - 4) as nat;
    assert((qp + 6) / 6 == qp / 6 + 1 && (qp + 6) % 6 == qp % 6);
    assert(crate::bitreader::p2(e + 1) == 2 * crate::bitreader::p2(e));
    let prod = level * level_scale_spec(qp % 6, i, j);
    let q = crate::bitreader::p2(e) as int;
    assert(prod * (2 * q) == 2 * (prod * q)) by (nonlinear_arith);
}

/// Inverse-quantize a 4×4 AC residual block given in raster order
/// (`j * 4 + i`). QP above 51 is rejected.
pub fn inverse_quant_4x4_ac(level: &[i16; 16], qp: u32) -> (res: Result<[i32; 16], DecodeError>)
    ensures
        qp > 51 ==> res == Err::<[i32; 16], DecodeError>(
            DecodeError::OutOfScope("qp > 51 (8-bit baseline only)"),
        ),
        qp <= 51 ==> res is Ok,
        res matches Ok(out) ==> forall|j: int, i: int|
            0 <= j < 4 && 0 <= i < 4 ==> #[trigger] out[j * 4 + i] as int == dequant_spec(
                level[j * 4 + i] as int,
                qp as int,
                i,
                j,
            ),
{
    if qp > 51 {
        return Err(DecodeError::OutOfScope("qp > 51 (8-bit baseline only)"));
    }
    let m = qp % 6;
    let qp_div_6 = qp / 6;
    let mut out = [0i32; 16];
    for j in 0..4usize
        invariant
            qp <= 51,
            m == qp % 6,
            qp_div_6 == qp / 6,
            forall|jj: int, ii: int|
                0 <= jj < j && 0 <= ii < 4 ==> #[trigger] out[jj * 4 + ii] as int == dequant_spec(
                    level[jj * 4 + ii] as int,
                    qp as int,
                    ii,
                    jj,
                ),
    {
        for i in 0..4usize
            invariant
                qp <= 51,
                m == qp % 6,
                qp_div_6 == qp / 6,
                j < 4,
                forall|jj: int, ii: int|
                    0 <= jj < j && 0 <= ii < 4 ==> #[trigger] out[jj * 4 + ii] as int == dequant_spec(
                        level[jj * 4 + ii] as int,
                        qp as int,
                        ii,
                        jj,
                    ),
                forall|ii: int|
                    0 <= ii < i ==> #[trigger] out[j * 4 + ii] as int == dequant_spec(
                        level[j * 4 + ii] as int,
                        qp as int,
                        ii,
                        j as int,
                    ),
        {
            let idx = j * 4 + i;
            let lvl = level[idx] as i32;
            let scale = level_scale_4x4(m, i, j);
            assert(160 <= scale <= 464);
            assert(-32768 * 464 <= lvl * scale <= 32767 * 464) by (nonlinear_arith)
                requires
                    -32768 <= lvl <= 32767,
                    160 <= scale <= 464,
            ;
            let prod = lvl * scale;
            let v = if qp_div_6 >= 4 {
                proof { lemma_shl(prod, (qp_div_6 - 4) as u32); }
                prod << (qp_div_6 - 4)
            } else {
                let shift = 4 - qp_div_6;
                let round: i32 = 1i32 << (3 - qp_div_6);
                proof {
                    reveal_with_fuel(crate::bitreader::p2, 5);
                    lemma_shift_facts(0, (3 - qp_div_6) as u32);
                }
                let sum = prod + round;
                proof { lemma_asr(sum, shift); }
                sum >> shift
            };
            out[idx] = v;
            assert(out[j * 4 + i] as int == dequant_spec(level[j * 4 + i] as int, qp as int, i as int, j as int));
        }
    }
    Ok(out)
}

} // verus!
