use snarkvid::manifest::SigningKey;
use snarkvid::error::DecodeError as ParseError;
use snarkvid::m2_statement::{authenticate_and_decode, frame_merkle_leaves, ClaimError};
use snarkvid::manifest::{merkle_path, merkle_root, sign_manifest, DeviceId, ManifestBody, VideoDescriptor};
use snarkvid::pps::parse_pps;
use snarkvid::slice::{Pps, SliceHeader, Sps};
use snarkvid::sps::parse_sps;
use snarkvid::toy_codec::{decode_toy, encode_toy, BqBitstream, BqHeader, ToyCodecError, YuvFrame};
use snarkvid::DecodeError;

/// Pack a string of '0'/'1' (other characters ignored) MSB-first, then the
/// RBSP stop bit and zero padding.
fn rbsp(bits: &str) -> Vec<u8> {
    let mut s: String = bits.chars().filter(|c| *c == '0' || *c == '1').collect();
    s.push('1');
    while s.len() % 8 != 0 {
        s.push('0');
    }
    (0..s.len() / 8).map(|i| u8::from_str_radix(&s[8 * i..8 * i + 8], 2).unwrap()).collect()
}

/// Profile, constraint flags and level of a baseline SPS.
const BASELINE_HEAD: &str = "01000010 11000000 00001010";

#[test]
fn sps_parser_rejects_unsupported_profile() {
    let head = "01100100 00000000 00011110 1";
    assert_eq!(
        parse_sps(&rbsp(head)),
        Err(ParseError::UnsupportedFeature("profile beyond baseline/main/extended"))
    );
}

#[test]
fn sps_parser_reports_end_of_stream() {
    assert_eq!(parse_sps(&[0x42, 0xc0]), Err(ParseError::EndOfStream));
}

#[test]
fn sps_parser_rejects_long_frame_num() {
    // sps_id 0, log2_max_frame_num_minus4 = 13.
    let bits = format!("{} 1 0001110", BASELINE_HEAD);
    assert_eq!(parse_sps(&rbsp(&bits)), Err(ParseError::OutOfRange("log2_max_frame_num_minus4 > 12")));
}

#[test]
fn sps_parser_rejects_unknown_poc_type() {
    // sps_id 0, log2_max_frame_num_minus4 0, pic_order_cnt_type 3.
    let bits = format!("{} 1 1 00100", BASELINE_HEAD);
    assert_eq!(parse_sps(&rbsp(&bits)), Err(ParseError::OutOfRange("pic_order_cnt_type")));
}

#[test]
fn sps_parser_reads_poc_type_1_cycle_and_cropping() {
    // poc type 1: flag 1, se(0), se(-1), one cycle entry se(2); then
    // ref frames 1, gaps 0, 2×1 MBs, frame_mbs_only 1, direct 1,
    // cropping (0, 8, 0, 0).
    let bits = format!(
        "{} 1 1 010 1 1 011 010 00100 010 0 010 1 1 1 1 1 0001001 1 1",
        BASELINE_HEAD
    );
    let sps = parse_sps(&rbsp(&bits)).unwrap();
    assert_eq!(sps.pic_order_cnt_type, 1);
    assert_eq!(sps.log2_max_pic_order_cnt_lsb_minus4, None);
    assert_eq!(sps.max_num_ref_frames, 1);
    assert_eq!(sps.pic_width(), 32);
    assert_eq!(sps.pic_height(), 16);
    assert_eq!(sps.frame_cropping_offsets, Some((0, 8, 0, 0)));
}

#[test]
fn sps_parser_rejects_interlaced() {
    // poc type 2, ref frames 0, gaps 0, 1×1 MBs, frame_mbs_only 0.
    let bits = format!("{} 1 1 011 1 0 1 1 0", BASELINE_HEAD);
    assert_eq!(
        parse_sps(&rbsp(&bits)),
        Err(ParseError::UnsupportedFeature("interlaced (mb_adaptive_frame_field)"))
    );
}

#[test]
fn pps_parser_rejects_slice_groups() {
    // pps_id 0, sps_id 0, CAVLC, bottom_field 0, num_slice_groups_minus1 1.
    assert_eq!(parse_pps(&rbsp("1 1 0 0 010")), Err(ParseError::UnsupportedFeature("FMO / multi-slice-group")));
}

#[test]
fn slice_parsers_reject_out_of_scope_streams() {
    // POC type 1 is refused by the slice-layer SPS parser.
    let bits = format!("{} 1 1 010 1 1 1 1", BASELINE_HEAD);
    assert!(matches!(Sps::parse(&rbsp(&bits)), Err(DecodeError::OutOfScope("pic_order_cnt_type == 1"))));
    // CABAC.
    assert!(matches!(Pps::parse(&rbsp("1 1 1")), Err(DecodeError::OutOfScope(_))));
    // A P slice.
    let sps = Sps::parse(&rbsp(&format!("{} 1 1 1 1 1 0 1 1 1 1 0 0", BASELINE_HEAD))).unwrap();
    let pps = Pps::parse(&rbsp("1 1 0 0 1 1 1 0 00 1 1 1 1 0 0")).unwrap();
    let p_slice = rbsp("1 00110 1 0000 1 0000 00 1 010");
    assert!(matches!(SliceHeader::parse(&p_slice, &sps, &pps, true), Err(DecodeError::OutOfScope("non-I slice"))));
    // A second slice of the picture.
    let second = rbsp("010 0001000 1 0000 1 0000 00 1 010");
    assert!(matches!(SliceHeader::parse(&second, &sps, &pps, true), Err(DecodeError::OutOfScope(_))));
    // An IDR I slice parses, with SliceQPY = 26 + 0 + (-1).
    let idr = rbsp("1 0001000 1 0000 1 0000 00 011 010");
    let sh = SliceHeader::parse(&idr, &sps, &pps, true).unwrap();
    assert_eq!(sh.slice_qp_y, 25);
    assert_eq!(sh.disable_deblocking_filter_idc, 1);
}

#[test]
fn toy_decoder_rejects_bad_streams() {
    let header = BqHeader { width: 16, height: 16, qp: 0, chroma_format: 2 };
    let bs = BqBitstream { header, coeffs_y: vec![0; 256], coeffs_u: vec![0; 64], coeffs_v: vec![0; 64] };
    assert_eq!(decode_toy(&bs), Err(ToyCodecError::InvalidChromaFormat));
    let header = BqHeader { width: 16, height: 16, qp: 0, chroma_format: 1 };
    let bs = BqBitstream { header, coeffs_y: vec![0; 255], coeffs_u: vec![0; 64], coeffs_v: vec![0; 64] };
    assert_eq!(decode_toy(&bs), Err(ToyCodecError::BufferTooSmall));
    let frame = YuvFrame { width: 16, height: 16, y: vec![0; 256], u: vec![0; 63], v: vec![0; 64] };
    assert_eq!(encode_toy(&frame, 0), Err(ToyCodecError::BufferTooSmall));
}

#[test]
fn claim_with_undecodable_stream_fails_decode() {
    let frame = YuvFrame { width: 16, height: 16, y: (0..=255).collect(), u: vec![7; 64], v: vec![9; 64] };
    let leaves = frame_merkle_leaves(&frame);
    let body = ManifestBody {
        version: 1,
        video: VideoDescriptor {
            width: 16, height: 16, fps_num: 30, fps_den: 1, frame_count: 1,
            merkle_root: merkle_root(&leaves),
        },
        audio: None,
        created_at: 0,
        device_id: DeviceId([3u8; 64]),
    };
    let signed = sign_manifest(body, &SigningKey::from_bytes(&[5u8; 32]));
    let paths: Vec<_> = (0..leaves.len()).map(|i| merkle_path(&leaves, i).unwrap()).collect();
    let mut bs = encode_toy(&frame, 0).unwrap();
    bs.header.chroma_format = 0;
    assert_eq!(authenticate_and_decode(&signed, &bs, &frame, &paths), Err(ClaimError::DecodeFailed));
    let mut bs = encode_toy(&frame, 0).unwrap();
    bs.header.width = 32;
    bs.coeffs_y.extend_from_slice(&[0; 256]);
    bs.coeffs_u.extend_from_slice(&[0; 64]);
    bs.coeffs_v.extend_from_slice(&[0; 64]);
    assert_eq!(authenticate_and_decode(&signed, &bs, &frame, &paths), Err(ClaimError::DecodeFailed));
    let bs = encode_toy(&frame, 0).unwrap();
    assert_eq!(authenticate_and_decode(&signed, &bs, &frame, &paths).unwrap(), frame);
}

#[test]
fn parser_errors_describe_themselves() {
    assert_eq!(ParseError::EndOfStream.message(), "h264: bitreader ran out of bits");
    assert_eq!(
        ParseError::UnsupportedFeature("CABAC entropy").message(),
        "h264: unsupported feature: CABAC entropy"
    );
    assert_eq!(ParseError::OutOfRange("pic_order_cnt_type").message(), "h264: out-of-range value: pic_order_cnt_type");
}

#[test]
fn sps_parser_accepts_only_baseline() {
    for profile in [77u8, 88] {
        let rbsp = [profile, 0xc0, 0x0a, 0xdd, 0xe8];
        assert_eq!(parse_sps(&rbsp), Err(ParseError::UnsupportedFeature("Main/Extended profile")));
    }
    let rbsp = [100u8, 0xc0, 0x0a, 0xdd, 0xe8];
    assert_eq!(parse_sps(&rbsp), Err(ParseError::UnsupportedFeature("profile beyond baseline/main/extended")));
}
