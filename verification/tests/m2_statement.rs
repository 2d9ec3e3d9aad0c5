use snarkvid::manifest::SigningKey;
use snarkvid::comparator::{frame_psnr, sum_squared_error, FramePsnrResult, PSNR_SCALE};
use snarkvid::m2_statement::{authenticate_and_decode, frame_merkle_leaves, psnr_verdict, ClaimError};
use snarkvid::manifest::{
    merkle_path, merkle_root, sign_manifest, DeviceId, ManifestBody, MerklePath, SignedManifest,
    VideoDescriptor,
};
use snarkvid::toy_codec::{encode_toy, BqBitstream, YuvFrame};

/// Fixed-point PSNR of one plane (dB × PSNR_SCALE), `i64::MAX` for
/// identical planes.
fn psnr_fixed(sse: i64, pixel_count: usize) -> i64 {
    if sse == 0 {
        return i64::MAX;
    }
    if pixel_count == 0 {
        return 0;
    }
    let mse = sse as f64 / pixel_count as f64;
    let psnr = 10.0 * libm::log10(255.0 * 255.0 / mse);
    (psnr * PSNR_SCALE as f64) as i64
}

fn plane_psnr(decoded: &[u8], original: &[u8]) -> i64 {
    psnr_fixed(sum_squared_error(decoded, original), decoded.len())
}

/// The whole claim: authentication and decode, per-plane PSNR, verdict.
fn verify_m2_claim(
    signed: &SignedManifest,
    bitstream: &BqBitstream,
    original: &YuvFrame,
    block_paths: &[MerklePath],
    tolerance_db_scaled: i64,
) -> Result<FramePsnrResult, ClaimError> {
    let decoded = authenticate_and_decode(signed, bitstream, original, block_paths)?;
    let psnr = frame_psnr(
        plane_psnr(&decoded.y, &original.y),
        plane_psnr(&decoded.u, &original.u),
        plane_psnr(&decoded.v, &original.v),
        tolerance_db_scaled,
    );
    psnr_verdict(psnr)
}

fn xs_frame(seed: u32, w: u16, h: u16) -> YuvFrame {
    let wu = w as usize;
    let hu = h as usize;
    let cw = wu / 2;
    let ch = hu / 2;
    let mut state = seed;
    let mut next = || {
        state ^= state << 13;
        state ^= state >> 17;
        state ^= state << 5;
        (state & 0xff) as u8
    };
    let y: Vec<u8> = (0..wu * hu).map(|_| next()).collect();
    let u: Vec<u8> = (0..cw * ch).map(|_| next()).collect();
    let v: Vec<u8> = (0..cw * ch).map(|_| next()).collect();
    YuvFrame { width: w, height: h, y, u, v }
}

fn make_body(root: [u8; 32]) -> ManifestBody {
    ManifestBody {
        version: 1,
        video: VideoDescriptor {
            width: 32, height: 32,
            fps_num: 30, fps_den: 1, frame_count: 1,
            merkle_root: root,
        },
        audio: None,
        created_at: 1_715_000_000,
        device_id: DeviceId(*b"m2-statement-test-device-padding-padding-padding-padding-padd-01"),
    }
}

fn build_fixture(qp: u8, key: &SigningKey) -> (
    SignedManifest, BqBitstream, YuvFrame, Vec<MerklePath>,
) {
    let original = xs_frame(0xfeedbeef, 32, 32);
    let leaves = frame_merkle_leaves(&original);
    let root = merkle_root(&leaves);
    let signed = sign_manifest(make_body(root), key);
    let bs = encode_toy(&original, qp).expect("encode");
    let paths: Vec<MerklePath> = (0..leaves.len())
        .map(|i| merkle_path(&leaves, i).expect("path"))
        .collect();
    (signed, bs, original, paths)
}

#[test]
fn happy_path_qp0() {
    let key = SigningKey::from_bytes(&[1u8; 32]);
    let (signed, bs, orig, paths) = build_fixture(0, &key);
    let r = verify_m2_claim(&signed, &bs, &orig, &paths, 60 * PSNR_SCALE).unwrap();
    assert_eq!(r.psnr_y_scaled, i64::MAX); // lossless
}

#[test]
fn manifest_sig_failure_returns_typed_error() {
    let key = SigningKey::from_bytes(&[2u8; 32]);
    let attacker = SigningKey::from_bytes(&[0xa5u8; 32]);
    let (mut signed, bs, orig, paths) = build_fixture(0, &key);
    signed.signature = sign_manifest(signed.body.clone(), &attacker).signature;
    assert_eq!(
        verify_m2_claim(&signed, &bs, &orig, &paths, 60 * PSNR_SCALE),
        Err(ClaimError::ManifestSignatureInvalid),
    );
}

#[test]
fn merkle_path_failure_carries_block_index() {
    let key = SigningKey::from_bytes(&[3u8; 32]);
    let (signed, bs, orig, mut paths) = build_fixture(0, &key);
    // Corrupt the path for block 7 specifically; the typed error
    // must surface that index so a verifier can localize the fault.
    paths[7].siblings[0][0] ^= 0xff;
    let err = verify_m2_claim(&signed, &bs, &orig, &paths, 60 * PSNR_SCALE).unwrap_err();
    assert!(matches!(err, ClaimError::MerklePathInvalid { block_index: 7 }));
}

#[test]
fn psnr_below_tolerance_returns_actual_psnr() {
    let key = SigningKey::from_bytes(&[4u8; 32]);
    let (signed, bs, orig, paths) = build_fixture(32, &key); // heavy quant
    let err = verify_m2_claim(&signed, &bs, &orig, &paths, 60 * PSNR_SCALE).unwrap_err();
    match err {
        ClaimError::PsnrBelowTolerance(psnr) => {
            // Verifier can read the actual PSNR off the error to
            // explain why the claim was rejected.
            assert!(psnr.psnr_combined_scaled < 60 * PSNR_SCALE);
            assert!(psnr.psnr_combined_scaled > 20 * PSNR_SCALE,
                "qp=32 should still be reasonable: got {} scaled dB",
                psnr.psnr_combined_scaled);
        }
        other => panic!("wrong error variant: {:?}", other),
    }
}
