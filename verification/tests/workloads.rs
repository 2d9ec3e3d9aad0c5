use snarkvid::manifest::hash_leaf;
use snarkvid::toy_codec::{decode_toy, BqBitstream, BqHeader, ToyCodecError, YuvFrame};
use snarkvid::workloads::{
    build_toy_frame, clamp_native, sha2_preimage, sha_steps, toy_decode_one_block, toy_native_commitment,
};

fn concat(f: &YuvFrame) -> Vec<u8> {
    let mut all = f.y.clone();
    all.extend_from_slice(&f.u);
    all.extend_from_slice(&f.v);
    all
}

#[test]
fn toy_frame_pads_short_input_with_zeros() {
    let f = build_toy_frame(&[5, 6, 7]);
    assert_eq!((f.width, f.height), (16, 16));
    assert_eq!(&f.y[..4], &[5, 6, 7, 0]);
    assert_eq!(f.y.len(), 256);
    assert_eq!(f.u, vec![0u8; 64]);
    assert_eq!(f.v, vec![0u8; 64]);
}

#[test]
fn toy_frame_keeps_only_the_first_384_bytes() {
    let data: Vec<u8> = (0..500u32).map(|i| (i % 256) as u8).collect();
    let f = build_toy_frame(&data);
    assert_eq!(concat(&f), data[..384].to_vec());
}

#[test]
fn native_commitment_is_digest_of_the_frame() {
    let data: Vec<u8> = (0..384u32).map(|i| (i * 7 % 256) as u8).collect();
    let f = build_toy_frame(&data);
    assert_eq!(toy_native_commitment(&f).unwrap(), hash_leaf(&data));
    let bad = YuvFrame { width: 8, height: 8, y: vec![0; 64], u: vec![0; 16], v: vec![0; 16] };
    assert_eq!(toy_native_commitment(&bad), Err(ToyCodecError::InvalidDimensions));
}

#[test]
fn one_block_digest_matches_decode_then_hash() {
    let bytes: Vec<u8> = (0..384u32).map(|i| (i * 13 % 256) as u8).collect();
    let bs = BqBitstream {
        header: BqHeader { width: 16, height: 16, qp: 0, chroma_format: 1 },
        coeffs_y: bytes[..256].iter().map(|&b| b as i16).collect(),
        coeffs_u: bytes[256..320].iter().map(|&b| b as i16).collect(),
        coeffs_v: bytes[320..].iter().map(|&b| b as i16).collect(),
    };
    let decoded = decode_toy(&bs).unwrap();
    assert_eq!(toy_decode_one_block(&bytes), hash_leaf(&concat(&decoded)));
}

#[test]
fn preimage_workload_hashes_and_echoes() {
    let data = b"hello world".to_vec();
    let (d, m) = sha2_preimage(5, &data);
    assert_eq!(d, hash_leaf(&data));
    assert_eq!(m, 5);
}

#[test]
fn sha_steps_is_one_per_32_bytes_capped() {
    assert_eq!(sha_steps(0, 10), 1);
    assert_eq!(sha_steps(32, 10), 1);
    assert_eq!(sha_steps(33, 10), 2);
    assert_eq!(sha_steps(1000, 10), 10);
    assert_eq!(sha_steps(64, 0), 0);
}

#[test]
fn clamp_native_reads_signed_and_clamps() {
    assert_eq!(clamp_native(0), 0);
    assert_eq!(clamp_native(200), 200);
    assert_eq!(clamp_native(255), 255);
    assert_eq!(clamp_native(256), 255);
    assert_eq!(clamp_native(0x7fff), 255);
    assert_eq!(clamp_native(0x8000), 0);
    assert_eq!(clamp_native(0xffff), 0);
}
