use snarkvid::bitreader::BitReader;
use snarkvid::cavlc::{
    decode_coeff_token, decode_levels, decode_residual_block_4x4, decode_run_before,
    decode_total_zeros_4x4, read_level_prefix, read_vlc, zigzag_4x4, CoeffToken, CoeffTokenVariant,
    VlcEntry,
};
use snarkvid::DecodeError;

/// Pack bits MSB-first into bytes.
fn pack_bits(bits: &[u8]) -> Vec<u8> {
    let mut out = Vec::new();
    let mut acc: u8 = 0;
    let mut count = 0u8;
    for &b in bits {
        acc = (acc << 1) | (b & 1);
        count += 1;
        if count == 8 {
            out.push(acc);
            acc = 0;
            count = 0;
        }
    }
    if count > 0 {
        acc <<= 8 - count;
        out.push(acc);
    }
    out
}

/// Make a BitReader from a sequence of 0/1 bits.
fn br_from_bits(bits: &[u8]) -> Vec<u8> {
    pack_bits(bits)
}

#[test]
fn read_vlc_matches_one_bit_codeword() {
    // Trivial table: codeword "1" → value 7; codeword "01" → value 3.
    let table = &[
        VlcEntry { codeword: 0b1,  codeword_len: 1, value: 7 },
        VlcEntry { codeword: 0b01, codeword_len: 2, value: 3 },
    ];
    let bytes = br_from_bits(&[1, 0, 1]);
    let mut br = BitReader::new(&bytes);
    assert_eq!(read_vlc(&mut br, table).unwrap(), 7);
    assert_eq!(read_vlc(&mut br, table).unwrap(), 3);
}

#[test]
fn read_vlc_no_match_errors_and_does_not_advance() {
    let table = &[
        VlcEntry { codeword: 0b1, codeword_len: 1, value: 1 },
    ];
    let bytes = br_from_bits(&[0, 0, 0]);
    let mut br = BitReader::new(&bytes);
    let pos_before = br.remaining_bits();
    assert!(matches!(read_vlc(&mut br, table), Err(DecodeError::CavlcInvalid)));
    // Cursor should still be at the start because the read failed
    // partway through.
    assert!(br.remaining_bits() <= pos_before);
}

// Standard codewords from libavcodec h264_cavlc.c.
//   codeword "1"          → TC=0, T1=0
//   codeword "01"         → TC=1, T1=1
//   codeword "001"        → TC=2, T1=2
//   codeword "000101"     → TC=1, T1=0
//   codeword "000100"     → TC=2, T1=1
//   codeword "00011"      → TC=3, T1=3
//   codeword "00000111"   → TC=2, T1=0
//   codeword "0000101"    → TC=3, T1=2
//   codeword "00000110"   → TC=3, T1=1
#[test]
fn coeff_token_vlc0_known_codewords() {
    let cases: &[(&[u8], u8, u8)] = &[
        (&[1],                            0, 0),
        (&[0,1],                          1, 1),
        (&[0,0,1],                        2, 2),
        (&[0,0,0,1,0,1],                  1, 0),
        (&[0,0,0,1,0,0],                  2, 1),
        (&[0,0,0,1,1],                    3, 3),
        (&[0,0,0,0,0,1,1,1],              2, 0),
        (&[0,0,0,0,1,0,1],                3, 2),
        (&[0,0,0,0,0,1,1,0],              3, 1),
    ];
    for (bits, expected_tc, expected_t1) in cases {
        let bytes = br_from_bits(bits);
        let mut br = BitReader::new(&bytes);
        let ct = decode_coeff_token(&mut br, CoeffTokenVariant::Vlc0).unwrap();
        assert_eq!(
            ct,
            CoeffToken { total_coeff: *expected_tc, trailing_ones: *expected_t1 },
            "bits={:?}", bits,
        );
    }
}

// Known values for chroma DC (Table 9-5 e):
//   "01"        → TC=0, T1=0
//   "1"         → TC=1, T1=1
//   "001"       → TC=2, T1=2
//   "00011"     → TC=3, T1=3
//   "000011"    → TC=4, T1=3
#[test]
fn coeff_token_chroma_dc_420_known_codewords() {
    let cases: &[(&[u8], u8, u8)] = &[
        (&[0,1],                  0, 0),
        (&[1],                    1, 1),
        (&[0,0,1],                2, 2),
        (&[0,0,0,1,1],            3, 3),
        (&[0,0,0,0,1,1],          4, 3),
    ];
    for (bits, expected_tc, expected_t1) in cases {
        let bytes = br_from_bits(bits);
        let mut br = BitReader::new(&bytes);
        let ct = decode_coeff_token(&mut br, CoeffTokenVariant::ChromaDc420).unwrap();
        assert_eq!(
            ct,
            CoeffToken { total_coeff: *expected_tc, trailing_ones: *expected_t1 },
            "bits={:?}", bits,
        );
    }
}

#[test]
fn variant_selector_picks_correct_table_from_nc() {
    assert_eq!(CoeffTokenVariant::from_nc(0, false), CoeffTokenVariant::Vlc0);
    assert_eq!(CoeffTokenVariant::from_nc(1, false), CoeffTokenVariant::Vlc0);
    assert_eq!(CoeffTokenVariant::from_nc(2, false), CoeffTokenVariant::Vlc1);
    assert_eq!(CoeffTokenVariant::from_nc(3, false), CoeffTokenVariant::Vlc1);
    assert_eq!(CoeffTokenVariant::from_nc(4, false), CoeffTokenVariant::Vlc2);
    assert_eq!(CoeffTokenVariant::from_nc(7, false), CoeffTokenVariant::Vlc2);
    assert_eq!(CoeffTokenVariant::from_nc(8, false), CoeffTokenVariant::FixedLen6);
    assert_eq!(CoeffTokenVariant::from_nc(50, false), CoeffTokenVariant::FixedLen6);
    // Chroma-DC overrides everything.
    assert_eq!(CoeffTokenVariant::from_nc(7, true), CoeffTokenVariant::ChromaDc420);
    assert_eq!(CoeffTokenVariant::from_nc(-1, true), CoeffTokenVariant::ChromaDc420);
}

#[test]
fn fixed_len_6_decodes_total_coeff_and_trailing_ones() {
    // bits = 0b000011 (3) → TotalCoeff=0, TrailingOnes=0 (special case).
    let bytes = pack_bits(&[0,0,0,0,1,1]);
    let mut br = BitReader::new(&bytes);
    let ct = decode_coeff_token(&mut br, CoeffTokenVariant::FixedLen6).unwrap();
    assert_eq!(ct, CoeffToken { total_coeff: 0, trailing_ones: 0 });

    // bits = 0b000100 (4) → TC-1=1, T1=0 → TC=2, T1=0.
    let bytes = pack_bits(&[0,0,0,1,0,0]);
    let mut br = BitReader::new(&bytes);
    let ct = decode_coeff_token(&mut br, CoeffTokenVariant::FixedLen6).unwrap();
    assert_eq!(ct, CoeffToken { total_coeff: 2, trailing_ones: 0 });

    // bits = 0b001011 (11) → TC-1=2 (TC=3), T1=3.
    let bytes = pack_bits(&[0,0,1,0,1,1]);
    let mut br = BitReader::new(&bytes);
    let ct = decode_coeff_token(&mut br, CoeffTokenVariant::FixedLen6).unwrap();
    assert_eq!(ct, CoeffToken { total_coeff: 3, trailing_ones: 3 });
}

#[test]
fn fixed_len_6_rejects_invalid_t1_count() {
    // bits = 0b000010 (2) → TC-1=0 (TC=1), T1=2 — but T1 must be ≤ TC.
    // Should be rejected.
    let bytes = pack_bits(&[0,0,0,0,1,0]);
    let mut br = BitReader::new(&bytes);
    assert!(matches!(
        decode_coeff_token(&mut br, CoeffTokenVariant::FixedLen6),
        Err(DecodeError::CavlcInvalid)
    ));
}

#[test]
fn truncated_input_propagates() {
    let bytes = br_from_bits(&[0]);  // not enough bits for any coeff_token in vlc0 except length-1 "1".
    let mut br = BitReader::new(&bytes);
    // Cursor is on bit "0" — needs at least one more bit. The
    // single bit available is "0", which doesn't match length-1
    // entry "1"; trying to extend hits EOF.
    let r = decode_coeff_token(&mut br, CoeffTokenVariant::Vlc0);
    assert!(matches!(r, Err(DecodeError::BitstreamTruncated)));
}

// ─────────────────────────────────────────────────────────────────
// Level / total_zeros / run_before / decode_residual_block tests
// ─────────────────────────────────────────────────────────────────

#[test]
fn empty_block_returns_all_zeros() {
    // total_coeff = 0 → no levels, no run_before, no total_zeros lookup.
    let bytes = pack_bits(&[]);
    let mut br = BitReader::new(&bytes);
    let levels = decode_levels(&mut br, 0, 0).unwrap();
    assert_eq!(levels, [0i32; 16]);
}

#[test]
fn single_trailing_one_yields_signed_one() {
    // total_coeff=1, trailing_ones=1 → read a single sign bit:
    // 1 → -1, 0 → +1.
    let bytes = pack_bits(&[1]);
    let mut br = BitReader::new(&bytes);
    let levels = decode_levels(&mut br, 1, 1).unwrap();
    assert_eq!(levels[0], -1);
    let bytes = pack_bits(&[0]);
    let mut br = BitReader::new(&bytes);
    let levels = decode_levels(&mut br, 1, 1).unwrap();
    assert_eq!(levels[0], 1);
}

#[test]
fn three_trailing_ones_each_get_a_sign_bit() {
    // Trailing ones placed at indices [TC-1, TC-2, TC-3] in the
    // result. Bits read in order — first sign bit goes to the
    // highest-frequency trailing one (index TC-1).
    let bytes = pack_bits(&[1, 0, 1]);
    let mut br = BitReader::new(&bytes);
    let levels = decode_levels(&mut br, 3, 3).unwrap();
    assert_eq!(levels[2], -1);
    assert_eq!(levels[1], 1);
    assert_eq!(levels[0], -1);
}

#[test]
fn level_prefix_returns_zero_for_lone_one_bit() {
    let bytes = pack_bits(&[1]);
    let mut br = BitReader::new(&bytes);
    assert_eq!(read_level_prefix(&mut br).unwrap(), 0);
}

#[test]
fn level_prefix_counts_zeros() {
    // 4 zeros then a 1 → returns 4.
    let bytes = pack_bits(&[0, 0, 0, 0, 1]);
    let mut br = BitReader::new(&bytes);
    assert_eq!(read_level_prefix(&mut br).unwrap(), 4);
}

#[test]
fn total_zeros_tc_3_known_codewords() {
    // H.264 Table 9-7 TC=3 column known values:
    //   "0101" → 0    "111" → 1    "110" → 2    "101" → 3
    let cases: &[(&[u8], u8)] = &[
        (&[0,1,0,1], 0),
        (&[1,1,1],   1),
        (&[1,1,0],   2),
        (&[1,0,1],   3),
    ];
    for (bits, expected) in cases {
        let bytes = pack_bits(bits);
        let mut br = BitReader::new(&bytes);
        assert_eq!(decode_total_zeros_4x4(&mut br, 3).unwrap(), *expected,
            "TC=3 bits {:?}", bits);
    }
}

#[test]
fn total_zeros_tc_7_codeword_11_decodes_to_5() {
    // H.264 Table 9-7 TC=7: "11" → 5 (notice short codeword for
    // the most-likely value at high TC).
    let bytes = pack_bits(&[1, 1]);
    let mut br = BitReader::new(&bytes);
    assert_eq!(decode_total_zeros_4x4(&mut br, 7).unwrap(), 5);
}

#[test]
fn total_zeros_tc_1_known_codewords() {
    // From H.264 Table 9-7: TC=1 column.
    //   "1"        → 0
    //   "011"      → 1
    //   "010"      → 2
    //   "0011"     → 3
    let cases: &[(&[u8], u8)] = &[
        (&[1], 0),
        (&[0,1,1], 1),
        (&[0,1,0], 2),
        (&[0,0,1,1], 3),
        (&[0,0,1,0], 4),
    ];
    for (bits, expected) in cases {
        let bytes = pack_bits(bits);
        let mut br = BitReader::new(&bytes);
        assert_eq!(decode_total_zeros_4x4(&mut br, 1).unwrap(), *expected,
            "bits {:?}", bits);
    }
}

#[test]
fn total_zeros_tc_eq_16_returns_zero_without_reading() {
    // total_coeff=16 means the block is full → no zeros possible.
    let bytes = pack_bits(&[]);
    let mut br = BitReader::new(&bytes);
    assert_eq!(decode_total_zeros_4x4(&mut br, 16).unwrap(), 0);
}

#[test]
fn run_before_zl1_round_trip() {
    // Table 9-10 zeros_left=1: "1" → 0, "0" → 1.
    let bytes = pack_bits(&[1, 0]);
    let mut br = BitReader::new(&bytes);
    assert_eq!(decode_run_before(&mut br, 1).unwrap(), 0);
    assert_eq!(decode_run_before(&mut br, 1).unwrap(), 1);
}

#[test]
fn run_before_zl3_round_trip() {
    // zeros_left=3: "11"→0, "10"→1, "01"→2, "00"→3.
    let bytes = pack_bits(&[1, 1,  1, 0,  0, 1,  0, 0]);
    let mut br = BitReader::new(&bytes);
    assert_eq!(decode_run_before(&mut br, 3).unwrap(), 0);
    assert_eq!(decode_run_before(&mut br, 3).unwrap(), 1);
    assert_eq!(decode_run_before(&mut br, 3).unwrap(), 2);
    assert_eq!(decode_run_before(&mut br, 3).unwrap(), 3);
}

#[test]
fn zigzag_table_is_a_valid_permutation() {
    let mut seen = [false; 16];
    for &k in zigzag_4x4().iter() {
        assert!(k < 16);
        assert!(!seen[k], "duplicate index {}", k);
        seen[k] = true;
    }
    // First entry is DC.
    assert_eq!(zigzag_4x4()[0], 0);
    // Last entry is the highest-frequency AC corner.
    assert_eq!(zigzag_4x4()[15], 15);
}

#[test]
fn residual_block_with_single_dc_trailing_one() {
    // Hand-built bitstream for TC=1, T1=1, sign=+1, total_zeros=15:
    //   coeff_token  "01"       → TC=1, T1=1 in VLC0
    //   sign bit     "0"        → +1
    //   total_zeros  "000000001" → 15 (TZ table TC=1 entry)
    //   no run_before since this is the only nonzero.
    // Fifteen zeros come before the lone coefficient, so it takes the
    // last scan position (TotalCoeff + total_zeros - 1 = 15), which is
    // raster index 15.
    let bits: Vec<u8> = [
        &[0,1][..],                       // coeff_token TC=1,T1=1
        &[0],                             // sign +1
        &[0,0,0,0,0,0,0,0,1][..],         // total_zeros = 15 → "000000001"
    ].concat();
    let bytes = pack_bits(&bits);
    let mut br = BitReader::new(&bytes);
    let raster = decode_residual_block_4x4(&mut br, CoeffTokenVariant::Vlc0).unwrap();
    assert_eq!(raster[15], 1, "last coefficient = +1; got {:?}", raster);
    for i in 0..15 {
        assert_eq!(raster[i], 0, "all others should be zero; idx {} = {}", i, raster[i]);
    }
}

#[test]
fn residual_block_dc_only_has_no_total_zeros() {
    // coeff_token "01" (TC=1, T1=1), sign "0", total_zeros "1" (0): the
    // lone coefficient is the DC.
    let bytes = pack_bits(&[0, 1, 0, 1]);
    let mut br = BitReader::new(&bytes);
    let raster = decode_residual_block_4x4(&mut br, CoeffTokenVariant::Vlc0).unwrap();
    let mut want = [0i32; 16];
    want[0] = 1;
    assert_eq!(raster, want);
}

#[test]
fn residual_block_places_first_level_highest() {
    // coeff_token "001" (TC=2, T1=2), signs "1" then "0", total_zeros
    // "111" (0): the first level read (-1) is the higher-frequency one.
    let mut br = BitReader::new(&[0x37]);
    let raster = decode_residual_block_4x4(&mut br, CoeffTokenVariant::Vlc0).unwrap();
    let mut want = [0i32; 16];
    want[0] = 1;
    want[1] = -1;
    assert_eq!(raster, want);
}

#[test]
fn residual_block_runs_walk_down_from_the_top() {
    // coeff_token "001" (TC=2, T1=2), signs "0" "1", total_zeros for TC=2
    // "100" (3), run_before with 3 zeros left "10" (1): the first level
    // (+1) sits at scan position 2 + 3 - 1 = 4, the second (-1) one run
    // plus one below, at 2; the last two zeros fill positions 0 and 1.
    let bytes = pack_bits(&[0, 0, 1, 0, 1, 1, 0, 0, 1, 0]);
    let mut br = BitReader::new(&bytes);
    let raster = decode_residual_block_4x4(&mut br, CoeffTokenVariant::Vlc0).unwrap();
    let mut want = [0i32; 16];
    want[5] = 1; // scan position 4 is raster 5
    want[4] = -1; // scan position 2 is raster 4
    assert_eq!(raster, want);
}
