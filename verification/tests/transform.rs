use snarkvid::transform::{hadamard_2x2, hadamard_4x4, idct_1d, idct_4x4, idct_4x4_with_scaling, round_shift_6};

// The H.264 4×4 integer FDCT is NOT a clean inverse of the IDCT
// standalone — the standard splits a per-coefficient normalization
// matrix between transform and quantization. Encoder pipeline is
// FDCT → ⊙ Mf → quant; decoder pipeline is dequant → ⊙ Mi → IDCT
// → +32 → >>6. The round-trip property is "FDCT then quant then
// dequant then IDCT then >>6 = original", which `quant.rs` will
// exercise once it lands. These tests verify the IDCT alone
// against the standard's mathematical definition.

#[test]
fn idct_zero_in_zero_out() {
    let zero = [0i32; 16];
    assert_eq!(idct_4x4(&zero), zero);
}

#[test]
fn idct_dc_only_yields_constant_block() {
    // IDCT of {c, 0, ..., 0} per H.264 §8.5.12 yields a block
    // whose every entry is c (before the >>6 scaling).
    //
    //   1D row 0: [c,0,0,0] → z0=c, z1=c, z2=0, z3=0 → [c,c,c,c]
    //   Rows 1..3: all zeros (input row is zero, butterfly is linear).
    //   1D column 0: [c,0,0,0] → [c,c,c,c]
    //   Columns 1..3: same shape — [c,0,0,0] → [c,c,c,c].
    // Result: every cell = c.
    let c = 13;
    let mut block = [0i32; 16];
    block[0] = c;
    let out = idct_4x4(&block);
    for v in out.iter() {
        assert_eq!(*v, c, "IDCT of DC-only should be constant; got {:?}", out);
    }
}

#[test]
fn idct_1d_butterfly_matches_spec_for_known_input() {
    // H.264 §8.5.12 1D butterfly applied to [4, 8, 0, 0]:
    //   z0 = 4 + 0 = 4
    //   z1 = 4 - 0 = 4
    //   z2 = (8 >> 1) - 0 = 4
    //   z3 = 8 + (0 >> 1) = 8
    //   f0 = z0 + z3 = 12
    //   f1 = z1 + z2 = 8
    //   f2 = z1 - z2 = 0
    //   f3 = z0 - z3 = -4
    assert_eq!(idct_1d([4, 8, 0, 0]), [12, 8, 0, -4]);
}

#[test]
fn idct_1d_butterfly_handles_arithmetic_shift_for_negatives() {
    // d = [0, 1, 0, 3]:
    //   z0 = 0+0 = 0; z1 = 0-0 = 0
    //   z2 = (1 >> 1) - 3 = 0 - 3 = -3
    //   z3 = 1 + (3 >> 1) = 1 + 1 = 2
    //   f = [z0+z3, z1+z2, z1-z2, z0-z3] = [2, -3, 3, -2]
    assert_eq!(idct_1d([0, 1, 0, 3]), [2, -3, 3, -2]);
}

// Note: the H.264 inverse butterfly is NOT strictly linear because
// it uses `>> 1` (arithmetic right-shift) on coefficients 1 and 3.
// `(a+b) >> 1 ≠ (a>>1) + (b>>1)` for inputs of opposite parity.
// The transform is *self-inverse up to scaling* in a particular
// basis, but additive linearity isn't a useful invariant here.

#[test]
fn idct_uses_arithmetic_shift_on_d1_d3() {
    // d = [0, 3, 0, 0]:
    //   z0 = 0+0 = 0; z1 = 0; z2 = (3>>1) - 0 = 1; z3 = 3+0 = 3
    //   f = [0+3, 0+1, 0-1, 0-3] = [3, 1, -1, -3]
    // Verifies the >>1 truncates toward zero (3/2 = 1, not 2).
    assert_eq!(idct_1d([0, 3, 0, 0]), [3, 1, -1, -3]);
}

#[test]
fn idct_negative_values_round_correctly() {
    // -32 + 32 = 0, then >> 6 = 0 (rounding boundary).
    // -33 + 32 = -1, then >> 6 = -1 (arithmetic shift on i32).
    let mut block = [0i32; 16];
    block[0] = -32;
    round_shift_6(&mut block);
    assert_eq!(block[0], 0);

    let mut block = [0i32; 16];
    block[0] = -33;
    round_shift_6(&mut block);
    assert_eq!(block[0], -1);
}

// ─────────────────────────────────────────────────────────────────
// 4×4 Hadamard tests
// ─────────────────────────────────────────────────────────────────

#[test]
fn hadamard_4x4_zero_in_zero_out() {
    let zero = [0i32; 16];
    assert_eq!(hadamard_4x4(&zero), zero);
}

#[test]
fn hadamard_4x4_dc_only_block() {
    // Hadamard of a constant block c×c is concentrated at the DC
    // position with value 16*c (the 4x4 Hadamard is 4*I in 1D, so
    // 2D applied to a constant gives 16*c at DC, zero elsewhere).
    let c = 7;
    let block = [c; 16];
    let out = hadamard_4x4(&block);
    assert_eq!(out[0], 16 * c);
    for i in 1..16 {
        assert_eq!(out[i], 0, "expected zero at index {}; got {}", i, out[i]);
    }
}

#[test]
fn hadamard_4x4_self_inverse_scaled_by_16() {
    // Applying the 4×4 Hadamard twice multiplies by 16.
    let original: [i32; 16] = [
        1, 2, 3, 4,
        5, 6, 7, 8,
        9, 10, 11, 12,
        13, 14, 15, 16,
    ];
    let once = hadamard_4x4(&original);
    let twice = hadamard_4x4(&once);
    for i in 0..16 {
        assert_eq!(twice[i], original[i] * 16, "index {}", i);
    }
}

// ─────────────────────────────────────────────────────────────────
// 2×2 Hadamard tests
// ─────────────────────────────────────────────────────────────────

#[test]
fn hadamard_2x2_zero_in_zero_out() {
    assert_eq!(hadamard_2x2(&[0, 0, 0, 0]), [0, 0, 0, 0]);
}

#[test]
fn hadamard_2x2_constant_yields_dc_only() {
    // 2×2 Hadamard of a constant c×c gives 4c at DC, zero elsewhere.
    let c = 11;
    assert_eq!(hadamard_2x2(&[c, c, c, c]), [4 * c, 0, 0, 0]);
}

#[test]
fn hadamard_2x2_self_inverse_scaled_by_4() {
    let original = [3, -1, 5, 7];
    let once = hadamard_2x2(&original);
    let twice = hadamard_2x2(&once);
    for i in 0..4 {
        assert_eq!(twice[i], original[i] * 4, "index {}", i);
    }
}

#[test]
fn idct_4x4_with_scaling_runs_idct_then_round_shift_6() {
    // The wrapper composes the two passes. Verify on the
    // DC-only block: IDCT(DC=64, others=0) gives a 16×64 block;
    // round_shift_6 ((64+32)>>6 = 1) yields 16×1.
    let mut coeffs = [0i32; 16];
    coeffs[0] = 64;
    let r = idct_4x4_with_scaling(&coeffs).unwrap();
    for v in r.iter() {
        assert_eq!(*v, 1);
    }
}
