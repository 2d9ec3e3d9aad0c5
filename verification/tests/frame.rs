use snarkvid::frame::decode_iframe;
use snarkvid::DecodeError;

#[test]
fn decode_iframe_invalid_input_errors() {
    // Random bytes with no NAL framing should fail at the SPS lookup.
    let garbage = [0xff, 0xff, 0xff, 0xff];
    assert!(matches!(
        decode_iframe(&garbage),
        Err(DecodeError::InvalidNalFraming)
    ));
}

/// One 16×16 IDR picture: a single I_NxN macroblock, every 4×4 mode
/// predicted (DC), no residual.
const ONE_MB_DC: [u8; 30] = [
    0x00, 0x00, 0x00, 0x01, 0x67, 0x42, 0xc0, 0x0a, 0xfb, 0xc8, 0x00, 0x00, 0x00, 0x01, 0x68, 0xce,
    0x3c, 0x80, 0x00, 0x00, 0x00, 0x01, 0x65, 0x88, 0x84, 0x0a, 0xff, 0xff, 0xc9, 0x80,
];

/// One 32×16 IDR picture: the same I_NxN macroblock, then an Intra16×16
/// macroblock, whose residual path is filled with its signature grey.
const TWO_MB_DC_THEN_I16: [u8; 30] = [
    0x00, 0x00, 0x00, 0x01, 0x67, 0x42, 0xc0, 0x0a, 0xf9, 0x72, 0x00, 0x00, 0x00, 0x01, 0x68, 0xce,
    0x3c, 0x80, 0x00, 0x00, 0x00, 0x01, 0x65, 0x88, 0x84, 0x0a, 0xff, 0xff, 0xc9, 0x5c,
];

#[test]
fn decode_iframe_single_dc_macroblock_is_mid_grey() {
    let f = decode_iframe(&ONE_MB_DC).unwrap();
    assert_eq!((f.width, f.height), (16, 16));
    assert_eq!(f.y, vec![128u8; 256]);
    assert_eq!(f.u, vec![128u8; 64]);
    assert_eq!(f.v, vec![128u8; 64]);
}

#[test]
fn decode_iframe_fills_unreconstructed_macroblock_with_signature() {
    let f = decode_iframe(&TWO_MB_DC_THEN_I16).unwrap();
    assert_eq!((f.width, f.height), (32, 16));
    for r in 0..16 {
        for c in 0..32 {
            assert_eq!(f.y[r * 32 + c], if c < 16 { 128 } else { 150 }, "y ({}, {})", c, r);
        }
    }
    for r in 0..8 {
        for c in 0..16 {
            let want = if c < 8 { 128 } else { 150 };
            assert_eq!(f.u[r * 16 + c], want);
            assert_eq!(f.v[r * 16 + c], want);
        }
    }
}

#[test]
fn decode_iframe_without_slice_is_framing_error() {
    let mut s = ONE_MB_DC[..18].to_vec();
    s.push(0x00);
    assert!(matches!(decode_iframe(&s), Err(DecodeError::InvalidNalFraming)));
}

/// One 16×16 IDR picture whose first 4×4 luma block carries a single DC
/// level of +1 at QP 26: the residual (+3 after dequantisation, inverse
/// transform and rounding) lifts that block to 131, and DC prediction
/// carries 131 into every later block.
const ONE_MB_DC_RESIDUAL: [u8; 31] = [
    0x00, 0x00, 0x00, 0x01, 0x67, 0x42, 0xc0, 0x0a, 0xfb, 0xc8, 0x00, 0x00, 0x00, 0x01, 0x68, 0xce,
    0x3c, 0x80, 0x00, 0x00, 0x00, 0x01, 0x65, 0x88, 0x84, 0x0a, 0xff, 0xff, 0xc3, 0xd5, 0xf0,
];

#[test]
fn decode_iframe_adds_dc_residual_and_predicts_from_it() {
    let f = decode_iframe(&ONE_MB_DC_RESIDUAL).unwrap();
    assert_eq!((f.width, f.height), (16, 16));
    assert_eq!(f.y, vec![131u8; 256]);
    assert_eq!(f.u, vec![128u8; 64]);
    assert_eq!(f.v, vec![128u8; 64]);
}
