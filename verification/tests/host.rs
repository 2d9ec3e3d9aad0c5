use snarkvid::host::{build_inputs, InputsError};
use snarkvid::m2_statement::{authenticate_and_decode, frame_merkle_leaves};
use snarkvid::manifest::{merkle_root, verify_manifest, verify_merkle_path};
use snarkvid::toy_codec::{ToyCodecError, YuvFrame};

fn gradient_frame(w: u16, h: u16) -> YuvFrame {
    let wu = w as usize;
    let hu = h as usize;
    let mut y = vec![0u8; wu * hu];
    for r in 0..hu {
        for c in 0..wu {
            y[r * wu + c] = ((r * 4) as u8).wrapping_add((c * 2) as u8);
        }
    }
    YuvFrame { width: w, height: h, y, u: vec![128; wu * hu / 4], v: vec![128; wu * hu / 4] }
}

#[test]
fn built_inputs_commit_to_the_frame_and_authenticate_every_block() {
    let frame = gradient_frame(64, 32);
    let inputs = build_inputs(frame.clone(), 0, 3600, None).unwrap();
    assert_eq!(inputs.original, frame);
    assert_eq!(inputs.tolerance_db_scaled, 3600);
    let leaves = frame_merkle_leaves(&frame);
    assert_eq!(inputs.signed.body.video.merkle_root, merkle_root(&leaves));
    assert_eq!(inputs.signed.body.video.width, 64);
    assert_eq!(inputs.signed.body.video.frame_count, 1);
    assert_eq!(&inputs.signed.body.device_id.0[..16], b"prover-host-dev-");
    assert!(verify_manifest(&inputs.signed).is_ok());
    assert_eq!(inputs.block_paths.len(), 32);
    for (i, p) in inputs.block_paths.iter().enumerate() {
        assert_eq!(p.index, i);
        assert!(verify_merkle_path(&inputs.signed.body.video.merkle_root, &leaves[i], p).is_ok());
    }
    let decoded = authenticate_and_decode(&inputs.signed, &inputs.bitstream, &inputs.original, &inputs.block_paths)
        .unwrap();
    assert_eq!(decoded, frame);
}

#[test]
fn built_inputs_at_qp1_decode_losslessly() {
    let frame = gradient_frame(32, 32);
    let inputs = build_inputs(frame.clone(), 1, 0, Some(&[9u8; 32])).unwrap();
    let decoded = authenticate_and_decode(&inputs.signed, &inputs.bitstream, &inputs.original, &inputs.block_paths)
        .unwrap();
    assert_eq!(decoded, frame);
}

#[test]
fn build_inputs_rejects_bad_dimensions_key_and_qp() {
    let frame = gradient_frame(24, 16);
    assert_eq!(build_inputs(frame, 0, 0, None).err(), Some(InputsError::InvalidDimensions));
    let frame = gradient_frame(16, 16);
    assert_eq!(build_inputs(frame.clone(), 0, 0, Some(&[1u8; 31])).err(), Some(InputsError::SigningKeyLength));
    assert_eq!(build_inputs(frame, 52, 0, None).err(), Some(InputsError::Encode(ToyCodecError::Unsupported)));
}
