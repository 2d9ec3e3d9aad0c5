use snarkvid::manifest::SigningKey;
use snarkvid::comparator::{frame_psnr, sum_squared_error, FramePsnrResult, PSNR_SCALE};
use snarkvid::m2_statement::{authenticate_and_decode, frame_merkle_leaves, psnr_verdict, ClaimError};
use snarkvid::manifest::{
    merkle_path, merkle_root, sign_manifest, DeviceId, ManifestBody, MerklePath, SignedManifest,
    VideoDescriptor,
};
use snarkvid::toy_codec::{encode_toy, BqBitstream, YuvFrame};

fn xs(mut s: u32) -> u32 {
    s ^= s << 13;
    s ^= s >> 17;
    s ^= s << 5;
    s
}

/// Deterministic 32×32 4:2:0 frame with enough high-frequency content
/// that quantization is observable.
fn make_frame() -> YuvFrame {
    let w = 32usize;
    let h = 32usize;
    let cw = w / 2;
    let ch = h / 2;
    let mut state = 0xfeedbeefu32;
    let mut next = || {
        state = xs(state);
        (state & 0xff) as u8
    };
    let y: Vec<u8> = (0..w * h).map(|_| next()).collect();
    let u: Vec<u8> = (0..cw * ch).map(|_| next()).collect();
    let v: Vec<u8> = (0..cw * ch).map(|_| next()).collect();
    YuvFrame { width: w as u16, height: h as u16, y, u, v }
}

fn make_manifest_body(merkle_root: [u8; 32]) -> ManifestBody {
    ManifestBody {
        version: 1,
        video: VideoDescriptor {
            width: 32,
            height: 32,
            fps_num: 30,
            fps_den: 1,
            frame_count: 1,
            merkle_root,
        },
        audio: None,
        created_at: 1_715_000_000,
        device_id: DeviceId(*b"m2-pipeline-test-device-padding-padding-padding-padding-pad-0001"),
    }
}

/// Tolerance threshold in fixed-point dB (PSNR_SCALE = 100, so 36.00 dB → 3600).
const TOLERANCE_36DB: i64 = 36 * PSNR_SCALE;
const TOLERANCE_60DB: i64 = 60 * PSNR_SCALE;

/// Fixed-point PSNR of one plane (dB × PSNR_SCALE), `i64::MAX` for
/// identical planes.
fn psnr_fixed(sse: i64, pixel_count: usize) -> i64 {
    if sse == 0 {
        return i64::MAX;
    }
    if pixel_count == 0 {
        return 0;
    }
    let mse = sse as f64 / pixel_count as f64;
    let psnr = 10.0 * libm::log10(255.0 * 255.0 / mse);
    (psnr * PSNR_SCALE as f64) as i64
}

fn plane_psnr(decoded: &[u8], original: &[u8]) -> i64 {
    psnr_fixed(sum_squared_error(decoded, original), decoded.len())
}

/// The claim, run natively. Returns `Ok(FramePsnrResult)` if every check
/// passes, `Err(&'static str)` naming the first failure.
fn check_m2_statement(
    signed: &SignedManifest,
    bitstream: &BqBitstream,
    original: &YuvFrame,
    block_paths: &[MerklePath],
    tolerance_db_scaled: i64,
) -> Result<FramePsnrResult, &'static str> {
    let decoded = authenticate_and_decode(signed, bitstream, original, block_paths).map_err(|e| match e {
        ClaimError::ManifestSignatureInvalid => "manifest signature invalid",
        ClaimError::MerklePathCountMismatch => "merkle paths count mismatch",
        ClaimError::MerklePathInvalid { .. } => "merkle path failed",
        ClaimError::DecodeFailed => "decode_toy failed",
        ClaimError::PsnrBelowTolerance(_) => "psnr below tolerance",
    })?;
    let result = frame_psnr(
        plane_psnr(&decoded.y, &original.y),
        plane_psnr(&decoded.u, &original.u),
        plane_psnr(&decoded.v, &original.v),
        tolerance_db_scaled,
    );
    psnr_verdict(result).map_err(|_| "psnr below tolerance")
}

/// Build the canonical "valid" fixture: original frame, encoded
/// bitstream, signed manifest committing to the original frame's Y-block
/// Merkle root, and Merkle paths for every block.
fn build_valid_fixture(qp: u8, signing_key: &SigningKey) -> (
    SignedManifest, BqBitstream, YuvFrame, Vec<MerklePath>,
) {
    let original = make_frame();
    let leaves = frame_merkle_leaves(&original);
    let root = merkle_root(&leaves);
    let body = make_manifest_body(root);
    let signed = sign_manifest(body, signing_key);
    let bitstream = encode_toy(&original, qp).expect("encode_toy");
    let paths: Vec<MerklePath> = (0..leaves.len())
        .map(|i| merkle_path(&leaves, i).expect("path"))
        .collect();
    (signed, bitstream, original, paths)
}

#[test]
fn happy_path_qp0_passes_high_threshold() {
    // qp=0 is bit-exact, so PSNR = ∞ and even the strict 60 dB threshold passes.
    let key = SigningKey::from_bytes(&[1u8; 32]);
    let (signed, bs, original, paths) = build_valid_fixture(0, &key);
    let r = check_m2_statement(&signed, &bs, &original, &paths, TOLERANCE_60DB)
        .expect("happy path should pass");
    // qp=0 is lossless → infinite PSNR sentinel
    assert_eq!(r.psnr_y_scaled, i64::MAX);
}

#[test]
fn happy_path_qp8_passes_36db_threshold() {
    // qp=8 is the acceptance target. Should clear 36 dB
    // comfortably (toy-codec unit tests show ≥ 40 dB on noise frames).
    let key = SigningKey::from_bytes(&[2u8; 32]);
    let (signed, bs, original, paths) = build_valid_fixture(8, &key);
    check_m2_statement(&signed, &bs, &original, &paths, TOLERANCE_36DB)
        .expect("qp=8 should clear 36 dB");
}

#[test]
fn tamper_compressed_byte_fails_closed() {
    // Flipping a byte in compressed.bin must fail closed.
    // After tampering, decode_toy still succeeds (no length/header
    // damage), but the decoded plane no longer matches `original` so
    // PSNR drops below tolerance.
    let key = SigningKey::from_bytes(&[3u8; 32]);
    let (signed, mut bs, original, paths) = build_valid_fixture(0, &key);
    // Flip a mid-stream Y coefficient; the change is far enough off DC
    // that it shows up in the reconstructed pixels.
    bs.coeffs_y[100] ^= 0x7f;
    let err = check_m2_statement(&signed, &bs, &original, &paths, TOLERANCE_60DB)
        .expect_err("tampered compressed must fail");
    assert_eq!(err, "psnr below tolerance");
}

#[test]
fn tamper_manifest_unknown_key_fails_closed() {
    // A manifest signed by an unknown key must fail closed.
    // Build a valid fixture, then re-sign the body under an attacker
    // key while keeping the original signer's pubkey on the wrapper —
    // verify_manifest catches the pubkey/signature mismatch.
    let known = SigningKey::from_bytes(&[4u8; 32]);
    let attacker = SigningKey::from_bytes(&[0xa5u8; 32]);
    let (mut signed, bs, original, paths) = build_valid_fixture(0, &known);
    // Replace the signature with one produced by a different key.
    let attacker_signed = sign_manifest(signed.body.clone(), &attacker);
    signed.signature = attacker_signed.signature;
    // signed.pubkey still claims `known` signed it — but the signature
    // is from `attacker`. verify_manifest must reject.
    let err = check_m2_statement(&signed, &bs, &original, &paths, TOLERANCE_60DB)
        .expect_err("manifest with foreign signature must fail");
    assert_eq!(err, "manifest signature invalid");
}

#[test]
fn tamper_lower_tolerance_below_actual_psnr_fails_closed() {
    // Lowering the tolerance below the actual PSNR must
    // fail closed. We use qp=32 (heavy quantization, real PSNR ≈ low
    // 30s dB on the noise frame) and demand 60 dB.
    let key = SigningKey::from_bytes(&[5u8; 32]);
    let (signed, bs, original, paths) = build_valid_fixture(32, &key);
    let err = check_m2_statement(&signed, &bs, &original, &paths, TOLERANCE_60DB)
        .expect_err("60 dB demand at qp=32 must fail");
    assert_eq!(err, "psnr below tolerance");
}

#[test]
fn tamper_merkle_path_fails_closed() {
    // Bonus: a wrong Merkle path on any block must fail closed.
    // Tests the manifest crate's merkle_path/verify_merkle_path
    // composition under a real workload.
    let key = SigningKey::from_bytes(&[6u8; 32]);
    let (signed, bs, original, mut paths) = build_valid_fixture(0, &key);
    // Corrupt the first sibling on block 0.
    paths[0].siblings[0][0] ^= 0xff;
    let err = check_m2_statement(&signed, &bs, &original, &paths, TOLERANCE_60DB)
        .expect_err("corrupted merkle path must fail");
    assert_eq!(err, "merkle path failed");
}

#[test]
fn merkle_path_count_mismatch_fails_closed() {
    let key = SigningKey::from_bytes(&[7u8; 32]);
    let (signed, bs, original, mut paths) = build_valid_fixture(0, &key);
    paths.pop();
    let err = check_m2_statement(&signed, &bs, &original, &paths, TOLERANCE_60DB)
        .expect_err("missing path must fail");
    assert_eq!(err, "merkle paths count mismatch");
}
