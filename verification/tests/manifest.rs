use ed25519_dalek::Signer;
use snarkvid::manifest::SigningKey;
use snarkvid::manifest::{
    hash_leaf, merkle_path, merkle_root, sign_manifest, verify_manifest, verify_merkle_path,
    AudioDescriptor, DeviceId, ManifestBody, ManifestError, MerklePath, VideoDescriptor,
};

fn fixture_body() -> ManifestBody {
    ManifestBody {
        version: 1,
        video: VideoDescriptor {
            width: 1280,
            height: 720,
            fps_num: 30,
            fps_den: 1,
            frame_count: 100,
            merkle_root: [42u8; 32],
        },
        audio: None,
        created_at: 1_715_000_000,
        device_id: DeviceId(*b"test-device-0123456789abcdef0123456789abcdef0123456789abcdef0123"),
    }
}

fn fixture_signing_key() -> SigningKey {
    // Deterministic key for tests. Real callers use OsRng.
    SigningKey::from_bytes(&[7u8; 32])
}

#[test]
fn merkle_root_single_leaf() {
    let leaf = hash_leaf(b"hello");
    let root = merkle_root(&[leaf]);
    assert_eq!(root, leaf);
}

#[test]
fn merkle_root_two_leaves() {
    let a = hash_leaf(b"hello");
    let b = hash_leaf(b"world");
    let root = merkle_root(&[a, b]);

    let path_a = MerklePath { index: 0, siblings: vec![b] };
    assert!(verify_merkle_path(&root, &a, &path_a).is_ok());

    let path_b = MerklePath { index: 1, siblings: vec![a] };
    assert!(verify_merkle_path(&root, &b, &path_b).is_ok());
}

#[test]
fn merkle_tamper_detected() {
    let a = hash_leaf(b"hello");
    let b = hash_leaf(b"world");
    let root = merkle_root(&[a, b]);
    let fake = hash_leaf(b"evil");
    let path = MerklePath { index: 0, siblings: vec![b] };
    assert!(verify_merkle_path(&root, &fake, &path).is_err());
}

#[test]
fn merkle_path_round_trip_power_of_two() {
    let leaves: Vec<[u8; 32]> = (0..8).map(|i| hash_leaf(&[i as u8])).collect();
    let root = merkle_root(&leaves);
    for (i, leaf) in leaves.iter().enumerate() {
        let path = merkle_path(&leaves, i).unwrap();
        assert_eq!(path.siblings.len(), 3, "8-leaf tree → 3-deep path");
        assert!(
            verify_merkle_path(&root, leaf, &path).is_ok(),
            "path[{}] should verify",
            i
        );
    }
}

#[test]
fn merkle_path_round_trip_odd_length() {
    // 5 leaves: tree shape forces last-node duplication at multiple levels.
    let leaves: Vec<[u8; 32]> = (0..5).map(|i| hash_leaf(&[i as u8])).collect();
    let root = merkle_root(&leaves);
    for (i, leaf) in leaves.iter().enumerate() {
        let path = merkle_path(&leaves, i).unwrap();
        assert!(
            verify_merkle_path(&root, leaf, &path).is_ok(),
            "odd-length path[{}] should verify",
            i
        );
    }
}

#[test]
fn merkle_path_rejects_out_of_range() {
    let leaves: Vec<[u8; 32]> = (0..4).map(|i| hash_leaf(&[i as u8])).collect();
    assert_eq!(merkle_path(&leaves, 4), Err(ManifestError::InvalidPath));
    assert_eq!(merkle_path(&[], 0), Err(ManifestError::InvalidPath));
}

#[test]
fn manifest_sign_verify_round_trip() {
    let key = fixture_signing_key();
    let signed = sign_manifest(fixture_body(), &key);
    assert!(verify_manifest(&signed).is_ok());
}

#[test]
fn manifest_tampered_body_fails_verify() {
    // Flipping a byte in the manifest must fail closed.
    let key = fixture_signing_key();
    let mut signed = sign_manifest(fixture_body(), &key);
    signed.body.video.frame_count += 1;
    assert_eq!(verify_manifest(&signed), Err(ManifestError::InvalidSignature));
}

#[test]
fn manifest_tampered_signature_fails_verify() {
    let key = fixture_signing_key();
    let mut signed = sign_manifest(fixture_body(), &key);
    signed.signature[0] ^= 0xff;
    assert_eq!(verify_manifest(&signed), Err(ManifestError::InvalidSignature));
}

#[test]
fn manifest_unknown_pubkey_fails_verify() {
    // "manifest signed by an unknown key → fails".
    // Substituting a different (valid) pubkey on a body signed by
    // someone else must fail — the signature won't match.
    let known = fixture_signing_key();
    let attacker = SigningKey::from_bytes(&[0xa5u8; 32]);
    let mut signed = sign_manifest(fixture_body(), &known);
    signed.pubkey = attacker.verifying_key_bytes();
    assert_eq!(verify_manifest(&signed), Err(ManifestError::InvalidSignature));
}

#[test]
fn manifest_invalid_pubkey_bytes_fails_verify() {
    let key = fixture_signing_key();
    let mut signed = sign_manifest(fixture_body(), &key);
    // ed25519_dalek rejects non-canonical / off-curve points.
    // All-zeros is the identity element → off-prime-order subgroup.
    signed.pubkey = [0u8; 32];
    assert_eq!(verify_manifest(&signed), Err(ManifestError::InvalidSignature));
}

#[test]
fn library_signature_matches_ed25519_dalek() {
    let body = fixture_body();
    let signed = sign_manifest(body.clone(), &fixture_signing_key());
    let dalek = ed25519_dalek::SigningKey::from_bytes(&[7u8; 32]);
    assert_eq!(signed.pubkey, dalek.verifying_key().to_bytes());
    assert_eq!(signed.signature, dalek.sign(&body.to_bytes()).to_bytes());
}

#[test]
fn body_bytes_follow_the_documented_layout() {
    let mut body = fixture_body();
    let bytes = body.to_bytes();
    assert_eq!(bytes.len(), 121);
    assert_eq!(bytes[0], 1);
    assert_eq!(&bytes[1..5], &[0x00, 0x05, 0xd0, 0x02]);
    assert_eq!(&bytes[49..57], &1_715_000_000u64.to_le_bytes());
    body.audio = Some(AudioDescriptor { sample_rate: 48000, channels: 2, sample_count: 9, merkle_root: [1u8; 32] });
    let bytes = body.to_bytes();
    assert_eq!(bytes.len(), 162);
    assert_eq!(&bytes[49..53], &48000u32.to_le_bytes());
    assert_eq!(bytes[53], 2);
}
