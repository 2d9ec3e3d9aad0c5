use snarkvid::bitreader::BitReader;
use snarkvid::cavlc::{decode_residual_block_4x4, decode_residual_block_4x4_with_tc, CoeffTokenVariant};
use snarkvid::comparator::{check_psnr_threshold, frame_psnr, sum_squared_error};
use snarkvid::error;
use snarkvid::frame::{mode_index, predict_intra_4x4_mode, wrap_qp, z_scan_index};
use snarkvid::intra::{predict_4x4, Intra4x4Mode, Neighbors4x4};
use snarkvid::mb::{z_scan_4x4, CodedBlockPattern};
use snarkvid::manifest::{hash_leaf, merkle_path, merkle_root, verify_merkle_path};
use snarkvid::nal::{strip_emulation_prevention, NalUnitIterator};
use snarkvid::toy_codec::{
    bitstream_to_bytes, decode_block, decode_toy, div_round, encode_block, encode_toy,
    frame_from_yuv420, quant_step, wht8, ToyCodecError, YuvFrame,
};
use snarkvid::transform::{hadamard_4x4, idct_4x4};
use snarkvid::DecodeError;

fn hex(bytes: &[u8]) -> String {
    bytes.iter().map(|b| format!("{:02x}", b)).collect()
}

#[test]
fn hash_leaf_is_sha256() {
    assert_eq!(
        hex(&hash_leaf(b"abc")),
        "ba7816bf8f01cfea414140de5dae2223b00361a396177a9cb410ff61f20015ad"
    );
    assert_eq!(
        hex(&hash_leaf(b"")),
        "e3b0c44298fc1c149afbf4c8996fb92427ae41e4649b934ca495991b7852b855"
    );
}

#[test]
fn merkle_root_of_three_duplicates_last_node() {
    let leaves: Vec<[u8; 32]> = (0..3u8).map(|i| hash_leaf(&[i])).collect();
    let pair = |a: &[u8; 32], b: &[u8; 32]| {
        let mut buf = a.to_vec();
        buf.extend_from_slice(b);
        hash_leaf(&buf)
    };
    let expected = pair(&pair(&leaves[0], &leaves[1]), &pair(&leaves[2], &leaves[2]));
    assert_eq!(merkle_root(&leaves), expected);
    let path = merkle_path(&leaves, 2).unwrap();
    assert_eq!(path.siblings, vec![leaves[2], pair(&leaves[0], &leaves[1])]);
    assert!(verify_merkle_path(&expected, &leaves[2], &path).is_ok());
}

#[test]
fn merkle_root_of_no_leaves_is_zero() {
    assert_eq!(merkle_root(&[]), [0u8; 32]);
}

#[test]
fn strip_leaves_rbsp_without_escapes_unchanged() {
    let payload = [0x00, 0x00, 0x01, 0x00, 0x00, 0x02, 0x03];
    assert_eq!(strip_emulation_prevention(&payload), payload.to_vec());
}

#[test]
fn iterator_on_stream_without_start_code_errors() {
    let stream = [0xff, 0xff, 0xff];
    let mut it = NalUnitIterator::new(&stream);
    assert!(matches!(it.next(), Some(Err(DecodeError::InvalidNalFraming)) | None));
}

#[test]
fn read_bits_then_ue_continue_from_cursor() {
    // 0b1010_0110: three raw bits 101, then the ue codeword 00110 = 5.
    let bytes = [0b1010_0110, 0b0000_0000];
    let mut br = BitReader::new(&bytes);
    assert_eq!(br.read_bits(3).unwrap(), 0b101);
    assert_eq!(br.read_ue().unwrap(), 5);
    assert_eq!(br.bit_pos(), 8);
}

#[test]
fn hadamard_4x4_twice_is_sixteen_times() {
    let b: [i32; 16] = [3, -7, 11, 0, 5, 5, -2, 9, 1, 1, 1, 1, -100, 40, 2, 8];
    let twice = hadamard_4x4(&hadamard_4x4(&b));
    for i in 0..16 {
        assert_eq!(twice[i], 16 * b[i]);
    }
}

#[test]
fn idct_of_dc_only_block_is_constant() {
    let mut b = [0i32; 16];
    b[0] = -21;
    assert_eq!(idct_4x4(&b), [-21i32; 16]);
}

#[test]
fn constant_neighbors_predict_constant_in_every_mode() {
    let n = Neighbors4x4::all([77; 4], [77; 4], [77; 4], 77);
    for i in 0..9u8 {
        let mode = Intra4x4Mode::from_index(i).unwrap();
        assert_eq!(predict_4x4(mode, &n).unwrap(), [77u8; 16], "mode {}", i);
    }
}

#[test]
fn cbp_unpack_then_pack_keeps_low_six_bits() {
    for bits in 0u8..=255 {
        let cbp = CodedBlockPattern::unpack(bits);
        assert_eq!(cbp.pack(), bits & 0x3f);
    }
}

#[test]
fn z_scan_index_inverts_z_scan_table() {
    let table = z_scan_4x4();
    for (z, &(x, y)) in table.iter().enumerate() {
        assert_eq!(z_scan_index(x, y), z);
    }
    assert_eq!(table[3], (1, 1));
    assert_eq!(z_scan_index(3, 0), 5);
    assert_eq!(z_scan_index(0, 3), 10);
}

#[test]
fn predicted_mode_is_min_of_neighbors_or_dc() {
    // Modes are held in raster order of the sixteen 4×4 blocks.
    let mut modes: [Option<Intra4x4Mode>; 16] = [None; 16];
    // Block (0,0) has neither neighbour inside the macroblock: DC.
    assert_eq!(predict_intra_4x4_mode(&modes, 0, 0), 2);
    modes[0] = Some(Intra4x4Mode::HorizontalUp);
    modes[4] = Some(Intra4x4Mode::VerticalLeft);
    // Block (1,1): its top (1,0) has no mode yet → DC.
    assert_eq!(predict_intra_4x4_mode(&modes, 1, 1), 2);
    modes[1] = Some(Intra4x4Mode::Horizontal);
    // Block (1,1): top (1,0) is mode 1, left (0,1) is mode 7 → min 1.
    assert_eq!(predict_intra_4x4_mode(&modes, 1, 1), mode_index(Intra4x4Mode::Horizontal));
    // Block (1,0) sits on the macroblock's top edge → DC.
    assert_eq!(predict_intra_4x4_mode(&modes, 1, 0), 2);
}

#[test]
fn wrap_qp_is_modulo_52() {
    assert_eq!(wrap_qp(26), 26);
    assert_eq!(wrap_qp(52), 0);
    assert_eq!(wrap_qp(60), 8);
    assert_eq!(wrap_qp(-1), 51);
    assert_eq!(wrap_qp(-53), 51);
}

#[test]
fn reader_errors_map_to_parser_errors() {
    assert_eq!(error::from_reader(DecodeError::BitstreamTruncated), error::DecodeError::EndOfStream);
    assert_eq!(error::from_reader(DecodeError::ExpGolombTooLong), error::DecodeError::ExpGolombOverflow);
    assert_eq!(error::from_reader(DecodeError::CavlcInvalid), error::DecodeError::OutOfRange("bit reader"));
}

#[test]
fn sse_counts_squared_differences() {
    assert_eq!(sum_squared_error(&[10, 20, 30], &[10, 20, 30]), 0);
    assert_eq!(sum_squared_error(&[0, 255, 7], &[3, 250, 7]), 9 + 25);
    assert_eq!(sum_squared_error(&[100u8; 1000], &[101u8; 1000]), 1000);
}

#[test]
fn frame_psnr_weights_luma_four_times() {
    let r = frame_psnr(4000, 3000, 3000, 3600);
    assert_eq!(r.psnr_combined_scaled, (4 * 4000 + 3000 + 3000) / 6);
    assert!(r.meets_threshold);
    let r = frame_psnr(3000, 4000, 4000, 3600);
    assert_eq!(r.psnr_combined_scaled, (4 * 3000 + 4000 + 4000) / 6);
    assert!(!r.meets_threshold);
}

#[test]
fn frame_psnr_skips_identical_planes() {
    let r = frame_psnr(i64::MAX, 3000, 3600, 9000);
    assert_eq!(r.psnr_combined_scaled, (3000 + 3600) / 2);
    assert!(!r.meets_threshold);
    let r = frame_psnr(i64::MAX, i64::MAX, i64::MAX, 9000);
    assert_eq!(r.psnr_combined_scaled, i64::MAX);
    assert!(r.meets_threshold);
}

#[test]
fn psnr_threshold_is_inclusive() {
    assert!(check_psnr_threshold(3600, 3600));
    assert!(check_psnr_threshold(3601, 3600));
    assert!(!check_psnr_threshold(3599, 3600));
}

#[test]
fn quant_step_is_qp_with_one_at_zero() {
    assert_eq!(quant_step(0), 1);
    assert_eq!(quant_step(1), 1);
    assert_eq!(quant_step(8), 8);
    assert_eq!(quant_step(51), 51);
}

#[test]
fn div_round_rounds_half_away_from_zero() {
    assert_eq!(div_round(7, 2), 4);
    assert_eq!(div_round(-7, 2), -4);
    assert_eq!(div_round(6, 4), 2);
    assert_eq!(div_round(5, 4), 1);
    assert_eq!(div_round(-5, 4), -1);
}

#[test]
fn wht8_of_impulse_is_first_row() {
    let mut v = [1, 0, 0, 0, 0, 0, 0, 0];
    wht8(&mut v);
    assert_eq!(v, [1; 8]);
}

#[test]
fn block_round_trip_at_step_one_is_exact() {
    let mut px = [0u8; 64];
    for i in 0..64 {
        px[i] = (i * 37 % 256) as u8;
    }
    let coeffs = encode_block(&px, 1);
    assert_eq!(decode_block(&coeffs, 1), px);
}

#[test]
fn frame_from_yuv420_splits_planes() {
    let data: Vec<u8> = (0..(16 * 16 * 3 / 2) as u32).map(|i| (i % 251) as u8).collect();
    let f = frame_from_yuv420(&data, 16, 16).unwrap();
    assert_eq!(f.y, data[..256].to_vec());
    assert_eq!(f.u, data[256..320].to_vec());
    assert_eq!(f.v, data[320..384].to_vec());
    assert!(frame_from_yuv420(&data[..383], 16, 16).is_none());
}

#[test]
fn bitstream_bytes_hold_header_then_coefficients() {
    let frame = YuvFrame { width: 16, height: 16, y: vec![9; 256], u: vec![1; 64], v: vec![2; 64] };
    let bs = encode_toy(&frame, 0).unwrap();
    let bytes = bitstream_to_bytes(&bs);
    assert_eq!(&bytes[0..6], &[16, 0, 16, 0, 0, 1]);
    assert_eq!(&bytes[6..18], &[0, 1, 0, 0, 64, 0, 0, 0, 64, 0, 0, 0]);
    assert_eq!(bytes.len(), 18 + 2 * (256 + 64 + 64));
    assert_eq!(decode_toy(&bs).unwrap(), frame);
}

#[test]
fn toy_codec_errors_describe_themselves() {
    assert_eq!(ToyCodecError::InvalidDimensions.message(), "frame dimensions must be multiples of 16");
    assert_eq!(ToyCodecError::Unsupported.message(), "unsupported codec parameter");
}

#[test]
fn two_reads_equal_one_wide_read() {
    let bytes = [0b1011_0110, 0b0101_1100, 0b1110_0001];
    for n in 0..=12u32 {
        let m = 12 - n;
        let mut a = BitReader::new(&bytes);
        a.read_bits(3).unwrap();
        let hi = a.read_bits(n).unwrap();
        let lo = a.read_bits(m).unwrap();
        let mut b = BitReader::new(&bytes);
        b.read_bits(3).unwrap();
        let all = b.read_bits(12).unwrap();
        assert_eq!((hi << m) | lo, all, "split at {}", n);
        assert_eq!(a.bit_pos(), b.bit_pos());
    }
}

#[test]
fn framed_units_come_back_in_order() {
    let units: Vec<Vec<u8>> = vec![vec![0x67, 0x42, 0x00, 0x0a], vec![0x68], vec![0x65, 0x00, 0x00, 0x02, 0x10]];
    let mut stream = Vec::new();
    for u in &units {
        stream.extend_from_slice(&[0, 0, 0, 1]);
        stream.extend_from_slice(u);
    }
    let mut it = NalUnitIterator::new(&stream);
    for u in &units {
        assert_eq!(it.next().unwrap().unwrap().bytes, &u[..]);
    }
    assert!(it.next().is_none());
}

#[test]
fn diagonal_down_left_follows_the_standard_filter() {
    let n = Neighbors4x4 { top: Some([0, 0, 0, 0]), top_right: Some([0, 0, 8, 32]), left: None, top_left: None };
    let p = predict_4x4(Intra4x4Mode::DiagonalDownLeft, &n).unwrap();
    let mut want = [0u8; 16];
    want[15] = 26;
    want[11] = 12;
    want[14] = 12;
    want[7] = 2;
    want[10] = 2;
    want[13] = 2;
    assert_eq!(p, want);
}

#[test]
fn residual_block_has_total_coeff_nonzero_levels() {
    // coeff_token "01" (TC=1, T1=1), sign "0", total_zeros "000000001" (15).
    let bytes = [0b0100_0000, 0b0010_0000];
    let mut a = BitReader::new(&bytes);
    let (tc, c) = decode_residual_block_4x4_with_tc(&mut a, CoeffTokenVariant::Vlc0).unwrap();
    assert_eq!(tc, 1);
    assert_eq!(c.iter().filter(|&&x| x != 0).count(), 1);
    let mut b = BitReader::new(&bytes);
    assert_eq!(decode_residual_block_4x4(&mut b, CoeffTokenVariant::Vlc0).unwrap(), c);
    assert_eq!(a.remaining_bits(), b.remaining_bits());
}

#[test]
fn merkle_path_has_one_sibling_per_level() {
    for (n, depth) in [(1usize, 0usize), (2, 1), (3, 2), (5, 3), (8, 3), (9, 4)] {
        let leaves: Vec<[u8; 32]> = (0..n).map(|i| hash_leaf(&[i as u8])).collect();
        for i in 0..n {
            assert_eq!(merkle_path(&leaves, i).unwrap().siblings.len(), depth, "n={} i={}", n, i);
        }
    }
}
