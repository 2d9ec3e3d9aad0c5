//! The inputs of a claim, built from a raw frame the way the prover host
//! builds them: the Merkle leaves and root over the frame's 8×8 luma
//! blocks, a development manifest committing to the root and signed with
//! the given key, the compressed stream, and one authentication path per
//! block.

use vstd::prelude::*;

use crate::m2_statement::{
    claim_spec, first_bad_path, frame_merkle_leaves, leaves_spec, luma_covers, path_model,
};
use crate::manifest::{
    body_bytes, digests, ed25519_identity_point, ed25519_public_key_spec, ed25519_signature_spec,
    ed25519_strict_accepts, fold_path, lemma_merkle_path_round_trip, merkle_path, merkle_root, path_spec,
    root_spec, sign_manifest, DeviceId, ManifestBody, MerklePath, SignedManifest, SigningKey, VideoDescriptor,
};
use crate::toy_codec::{
    decode_toy_spec, encode_toy, encode_toy_spec, lemma_toy_round_trip_lossless, BqBitstream, ToyCodecError,
    YuvFrame,
};

verus! {

/// Everything the claim check takes: the public manifest, stream and
/// tolerance, and the private original frame with its block paths.
pub struct M2Inputs {
    pub signed: SignedManifest,
    pub bitstream: BqBitstream,
    pub original: YuvFrame,
    pub block_paths: Vec<MerklePath>,
    pub tolerance_db_scaled: i64,
}

/// Why the inputs could not be built.
#[derive(Clone, Copy, Debug, PartialEq, Eq)]
pub enum InputsError {
    /// Width or height is not a multiple of 16.
    InvalidDimensions,
    /// The signing key is not 32 bytes long.
    SigningKeyLength,
    /// The encoder refused the frame.
    Encode(ToyCodecError),
}

/// The device id of development manifests.
pub open spec fn dev_device_id() -> Seq<u8> {
    seq![
        112u8, 114, 111, 118, 101, 114, 45, 104, 111, 115, 116, 45, 100, 101, 118, 45,
        100, 101, 118, 105, 99, 101, 45, 112, 97, 100, 100, 105, 110, 103, 45, 112,
        97, 100, 100, 105, 110, 103, 45, 112, 97, 100, 100, 105, 110, 103, 45, 112,
        97, 100, 100, 105, 110, 103, 45, 112, 97, 100, 100, 105, 110, 103, 45, 49,
    ]
}

fn dev_device_id_bytes() -> (d: [u8; 64])
    ensures
        d@ == dev_device_id(),
{
    let d: [u8; 64] = [
        112, 114, 111, 118, 101, 114, 45, 104, 111, 115, 116, 45, 100, 101, 118, 45,
        100, 101, 118, 105, 99, 101, 45, 112, 97, 100, 100, 105, 110, 103, 45, 112,
        97, 100, 100, 105, 110, 103, 45, 112, 97, 100, 100, 105, 110, 103, 45, 112,
        97, 100, 100, 105, 110, 103, 45, 112, 97, 100, 100, 105, 110, 103, 45, 49,
    ];
    assert(d@ =~= dev_device_id());
    d
}

/// The secret key used when none is given.
pub open spec fn dev_signing_key() -> Seq<u8> {
    Seq::new(32, |i: int| 0x42u8)
}

/// The development manifest body for frame `f`: one frame at 30 fps,
/// no audio, committing to the root over `f`'s block digests.
pub open spec fn dev_body(b: ManifestBody, f: YuvFrame) -> bool {
    &&& b.version == 1
    &&& b.video.width == f.width
    &&& b.video.height == f.height
    &&& b.video.fps_num == 30
    &&& b.video.fps_den == 1
    &&& b.video.frame_count == 1
    &&& b.video.merkle_root@ == root_spec(leaves_spec(f))
    &&& b.audio is None
    &&& b.created_at == 1_715_000_000
    &&& b.device_id.0@ == dev_device_id()
}

/// The authentication path of every leaf, in leaf order.
pub open spec fn honest_paths(leaves: Seq<Seq<u8>>) -> Seq<(usize, Seq<Seq<u8>>)> {
    Seq::new(leaves.len(), |i: int| (i as usize, path_spec(leaves, i)))
}

/// The secret the inputs are signed with: the given bytes, or the
/// development secret.
pub open spec fn key_secret(key: Option<&[u8]>) -> Seq<u8> {
    match key {
        Some(k) => k@,
        None => dev_signing_key(),
    }
}

/// The manifest is signed by `secret`: its public key and its signature
/// over the body's bytes are the Ed25519 ones, and the signature verifies
/// under that key unless its nonce point is the identity.
pub open spec fn signed_by(m: SignedManifest, secret: Seq<u8>) -> bool {
    &&& m.pubkey@ == ed25519_public_key_spec(secret)
    &&& m.signature@ == ed25519_signature_spec(secret, body_bytes(m.body))
    &&& m.signature@.subrange(0, 32) != ed25519_identity_point() ==> ed25519_strict_accepts(
        m.pubkey@,
        body_bytes(m.body),
        m.signature@,
    )
}

/// The 32-byte secret of `key`, or the development secret.
fn secret_bytes(key: Option<&[u8]>) -> (r: Option<[u8; 32]>)
    ensures
        match key {
            Some(k) => if k@.len() == 32 { r matches Some(s) && s@ == k@ } else { r is None },
            None => r matches Some(s) && s@ == dev_signing_key(),
        },
{
    match key {
        None => {
            let s = [0x42u8; 32];
            assert(s@ =~= dev_signing_key());
            Some(s)
        },
        Some(k) => {
            if k.len() != 32 {
                return None;
            }
            let mut s = [0u8; 32];
            let mut i: usize = 0;
            while i < 32
                invariant
                    i <= 32,
                    k@.len() == 32,
                    forall|t: int| 0 <= t < i ==> s@[t] == k@[t],
                decreases 32 - i,
            {
                s[i] = k[i];
                i += 1;
            }
            assert(s@ =~= k@);
            Some(s)
        },
    }
}

/// The authentication paths of all `leaves`, in leaf order.
fn all_paths(leaves: &Vec<[u8; 32]>) -> (paths: Vec<MerklePath>)
    ensures
        paths@.map_values(|p: MerklePath| path_model(p)) == honest_paths(digests(leaves@)),
{
    let ghost lv = digests(leaves@);
    let mut paths: Vec<MerklePath> = Vec::new();
    let mut i: usize = 0;
    while i < leaves.len()
        invariant
            i <= leaves@.len(),
            lv == digests(leaves@),
            paths@.len() == i,
            forall|t: int| 0 <= t < i ==> path_model(#[trigger] paths@[t]) == honest_paths(lv)[t],
        decreases leaves@.len() - i,
    {
        let p = match merkle_path(leaves.as_slice(), i) {
            Ok(p) => p,
            Err(_) => { proof { assert(false); } return paths; },
        };
        paths.push(p);
        i += 1;
    }
    assert(paths@.map_values(|p: MerklePath| path_model(p)) =~= honest_paths(lv));
    paths
}

/// Build the claim inputs for `original`: its block leaves and Merkle
/// root, the development manifest over that root signed with
/// `signing_key` (32 secret bytes; the development key when `None`), the
/// frame encoded at `qp`, and the path of every block.
pub fn build_inputs(original: YuvFrame, qp: u8, tolerance_db_scaled: i64, signing_key: Option<&[u8]>) -> (res: Result<M2Inputs, InputsError>)
    requires
        luma_covers(original),
    ensures
        !(original.width % 16 == 0 && original.height % 16 == 0) ==> res == Err::<M2Inputs, InputsError>(
            InputsError::InvalidDimensions,
        ),
        original.width % 16 == 0 && original.height % 16 == 0 && (signing_key matches Some(k) && k@.len() != 32)
            ==> res == Err::<M2Inputs, InputsError>(InputsError::SigningKeyLength),
        original.width % 16 == 0 && original.height % 16 == 0 && !(signing_key matches Some(k) && k@.len() != 32)
            ==> match encode_toy_spec(original.width, original.height, original.y@, original.u@, original.v@, qp) {
            Err(e) => res == Err::<M2Inputs, InputsError>(InputsError::Encode(e)),
            Ok((hd, cy, cu, cv)) => res matches Ok(inp) && inp.original == original && inp.bitstream.header == hd
                && inp.bitstream.coeffs_y@ == cy && inp.bitstream.coeffs_u@ == cu && inp.bitstream.coeffs_v@ == cv
                && inp.tolerance_db_scaled == tolerance_db_scaled && dev_body(inp.signed.body, original)
                && signed_by(inp.signed, key_secret(signing_key))
                && inp.block_paths@.map_values(|p: MerklePath| path_model(p)) == honest_paths(leaves_spec(original)),
        },
{
    if !(original.width % 16 == 0 && original.height % 16 == 0) {
        return Err(InputsError::InvalidDimensions);
    }
    let secret = match secret_bytes(signing_key) {
        Some(s) => s,
        None => { return Err(InputsError::SigningKeyLength); },
    };
    let leaves = frame_merkle_leaves(&original);
    let root = merkle_root(leaves.as_slice());
    let key = SigningKey::from_bytes(&secret);
    let body = ManifestBody {
        version: 1,
        video: VideoDescriptor {
            width: original.width,
            height: original.height,
            fps_num: 30,
            fps_den: 1,
            frame_count: 1,
            merkle_root: root,
        },
        audio: None,
        created_at: 1_715_000_000,
        device_id: DeviceId(dev_device_id_bytes()),
    };
    let signed = sign_manifest(body, &key);
    let bitstream = match encode_toy(&original, qp) {
        Ok(bs) => bs,
        Err(e) => { return Err(InputsError::Encode(e)); },
    };
    let block_paths = all_paths(&leaves);
    Ok(M2Inputs { signed, bitstream, original, block_paths, tolerance_db_scaled })
}

/// The honest path of every leaf from `i` on leads from the leaf to the
/// root over all leaves.
pub proof fn lemma_honest_paths_authenticate(leaves: Seq<Seq<u8>>, i: int)
    requires
        0 <= i <= leaves.len(),
        leaves.len() <= usize::MAX,
    ensures
        first_bad_path(honest_paths(leaves), leaves, root_spec(leaves), i) is None,
    decreases leaves.len() - i,
{
    if i < leaves.len() {
        lemma_merkle_path_round_trip(leaves, i);
        assert(honest_paths(leaves)[i] == (i as usize, path_spec(leaves, i)));
        lemma_honest_paths_authenticate(leaves, i + 1);
    }
}

/// A claim built from a frame at QP 0 or 1 passes: its manifest's
/// signature verifies (unless the signature's nonce point is the
/// identity), every block authenticates against the manifest's root, and
/// the stream decodes back to exactly the original.
pub proof fn lemma_honest_claim_decodes_original(inputs: M2Inputs, qp: u8, secret: Seq<u8>)
    requires
        qp <= 1,
        dev_body(inputs.signed.body, inputs.original),
        inputs.block_paths@.map_values(|p: MerklePath| path_model(p)) == honest_paths(leaves_spec(inputs.original)),
        encode_toy_spec(inputs.original.width, inputs.original.height, inputs.original.y@, inputs.original.u@, inputs.original.v@, qp)
            == Ok::<_, ToyCodecError>((inputs.bitstream.header, inputs.bitstream.coeffs_y@, inputs.bitstream.coeffs_u@, inputs.bitstream.coeffs_v@)),
        signed_by(inputs.signed, secret),
        inputs.signed.signature@.subrange(0, 32) != ed25519_identity_point(),
    ensures
        claim_spec(inputs.signed, inputs.bitstream, inputs.original, inputs.block_paths@.map_values(|p: MerklePath| path_model(p)))
            == Ok::<_, crate::m2_statement::ClaimError>((inputs.original.width, inputs.original.height, inputs.original.y@, inputs.original.u@, inputs.original.v@)),
{
    let f = inputs.original;
    let leaves = leaves_spec(f);
    let bw = f.width / 8;
    let bh = f.height / 8;
    assert(bw * bh <= 0x2000 * 0x2000) by (nonlinear_arith)
        requires
            bw <= 0x2000,
            bh <= 0x2000;
    lemma_honest_paths_authenticate(leaves, 0);
    lemma_toy_round_trip_lossless(f.width, f.height, f.y@, f.u@, f.v@, qp);
}

} // verus!
