//! The signed manifest and the SHA-256 Merkle tree over the original
//! media: the deterministic byte form of a manifest body, Ed25519
//! signing and strict verification of it, and Merkle roots,
//! authentication paths and their check.

use vstd::prelude::*;

use crate::bytes::{lemma_le_bytes_len, le_bytes, push_all, push_le};
use ed25519_dalek::Signer;
use sha2::Digest;

verus! {

// ─────────────────────────────────────────────────────────────────────
// Types
// ─────────────────────────────────────────────────────────────────────

/// What the signature covers.
#[derive(Clone, Debug, PartialEq)]
pub struct ManifestBody {
    pub version: u8,
    pub video: VideoDescriptor,
    pub audio: Option<AudioDescriptor>,
    pub created_at: u64,
    pub device_id: DeviceId,
}

/// The video track and the Merkle root over its original frames.
#[derive(Clone, Debug, PartialEq)]
pub struct VideoDescriptor {
    pub width: u16,
    pub height: u16,
    pub fps_num: u32,
    pub fps_den: u32,
    pub frame_count: u32,
    pub merkle_root: [u8; 32],
}

/// The audio track and the Merkle root over its original PCM windows.
#[derive(Clone, Debug, PartialEq)]
pub struct AudioDescriptor {
    pub sample_rate: u32,
    pub channels: u8,
    pub sample_count: u32,
    pub merkle_root: [u8; 32],
}

/// Capture-device identifier (64 bytes).
#[derive(Clone, Debug, PartialEq)]
pub struct DeviceId(pub [u8; 64]);

/// A manifest body with the Ed25519 public key and the signature over
/// the body's bytes.
#[derive(Clone, Debug, PartialEq)]
pub struct SignedManifest {
    pub body: ManifestBody,
    pub pubkey: [u8; 32],
    pub signature: [u8; 64],
}

/// The authentication path of the leaf at `index`: one sibling per level,
/// from the leaves up.
#[derive(Clone, Debug, PartialEq)]
pub struct MerklePath {
    pub index: usize,
    pub siblings: Vec<[u8; 32]>,
}

/// Errors of the manifest checks.
#[derive(Clone, Copy, Debug, PartialEq, Eq)]
pub enum ManifestError {
    InvalidSignature,
    InvalidMerkleRoot,
    InvalidPath,
    UnsupportedVersion,
    MissingAudio,
    BufferTooSmall,
}

// ─────────────────────────────────────────────────────────────────────
// Byte form of the body
// ─────────────────────────────────────────────────────────────────────

/// The bytes the signature covers: version, video descriptor, the audio
/// descriptor if present, creation time and device id, integers
/// little-endian (121 bytes without audio, 162 with).
pub open spec fn body_bytes(b: ManifestBody) -> Seq<u8> {
    seq![b.version] + le_bytes(b.video.width as int, 2) + le_bytes(b.video.height as int, 2)
        + le_bytes(b.video.fps_num as int, 4) + le_bytes(b.video.fps_den as int, 4)
        + le_bytes(b.video.frame_count as int, 4) + b.video.merkle_root@
        + match b.audio {
        Some(a) => le_bytes(a.sample_rate as int, 4) + seq![a.channels] + le_bytes(a.sample_count as int, 4)
            + a.merkle_root@,
        None => Seq::empty(),
    } + le_bytes(b.created_at as int, 8) + b.device_id.0@
}

impl ManifestBody {
    /// The deterministic byte form that is signed and verified.
    pub fn to_bytes(&self) -> (buf: Vec<u8>)
        ensures
            buf@ == body_bytes(*self),
            buf@.len() == if self.audio is None { 121int } else { 162int },
    {
        proof {
            lemma_le_bytes_len(self.video.width as int, 2);
            lemma_le_bytes_len(self.video.height as int, 2);
            lemma_le_bytes_len(self.video.fps_num as int, 4);
            lemma_le_bytes_len(self.video.fps_den as int, 4);
            lemma_le_bytes_len(self.video.frame_count as int, 4);
            lemma_le_bytes_len(self.created_at as int, 8);
            if self.audio is Some {
                lemma_le_bytes_len(self.audio->0.sample_rate as int, 4);
                lemma_le_bytes_len(self.audio->0.sample_count as int, 4);
            }
        }
        let mut buf: Vec<u8> = Vec::new();
        buf.push(self.version);
        push_le(&mut buf, self.video.width as u64, 2);
        push_le(&mut buf, self.video.height as u64, 2);
        push_le(&mut buf, self.video.fps_num as u64, 4);
        push_le(&mut buf, self.video.fps_den as u64, 4);
        push_le(&mut buf, self.video.frame_count as u64, 4);
        push_all(&mut buf, &self.video.merkle_root);
        let ghost before_audio = buf@;
        match &self.audio {
            Some(audio) => {
                push_le(&mut buf, audio.sample_rate as u64, 4);
                buf.push(audio.channels);
                push_le(&mut buf, audio.sample_count as u64, 4);
                push_all(&mut buf, &audio.merkle_root);
            },
            None => {},
        }
        push_le(&mut buf, self.created_at, 8);
        push_all(&mut buf, &self.device_id.0);
        assert(buf@ =~= body_bytes(*self));
        buf
    }
}

// ─────────────────────────────────────────────────────────────────────
// Hashing and signatures
// ─────────────────────────────────────────────────────────────────────

/// The SHA-256 digest of `data` (`sha2::Sha256::digest`).
pub uninterp spec fn sha256_spec(data: Seq<u8>) -> Seq<u8>;

/// Whether `ed25519_dalek` accepts `sig` on `msg` under the public key
/// `pubkey`: the key bytes decompress to a point and `verify_strict`
/// succeeds.
pub uninterp spec fn ed25519_strict_accepts(pubkey: Seq<u8>, msg: Seq<u8>, sig: Seq<u8>) -> bool;

/// Hash a leaf: `sha2::Sha256::digest(data)`. The contract names the
/// digest `sha256_spec(data)`, a function of the bytes alone.
#[verifier::external_body]
pub fn hash_leaf(data: &[u8]) -> (h: [u8; 32])
    ensures
        h@ == sha256_spec(data@),
{
    sha2::Sha256::digest(data).into()
}

/// `ed25519_dalek::VerifyingKey::from_bytes` on `pubkey`, then
/// `verify_strict` of `signature` (`Signature::from_bytes`) on `msg`. The
/// contract names the outcome, a function of the three byte strings
/// alone; which byte strings it accepts is not stated.
#[verifier::external_body]
fn ed25519_verify_strict(pubkey: &[u8; 32], msg: &[u8], signature: &[u8; 64]) -> (ok: bool)
    ensures
        ok == ed25519_strict_accepts(pubkey@, msg@, signature@),
{
    match ed25519_dalek::VerifyingKey::from_bytes(pubkey) {
        Ok(vk) => vk.verify_strict(msg, &ed25519_dalek::Signature::from_bytes(signature)).is_ok(),
        Err(_) => false,
    }
}

/// The Ed25519 public key of the 32-byte secret `secret`.
pub uninterp spec fn ed25519_public_key_spec(secret: Seq<u8>) -> Seq<u8>;

/// The Ed25519 signature of `msg` under the 32-byte secret `secret`
/// (Ed25519 signing is deterministic).
pub uninterp spec fn ed25519_signature_spec(secret: Seq<u8>, msg: Seq<u8>) -> Seq<u8>;

/// The compressed encoding of the identity point: 1, then 31 zero bytes.
pub open spec fn ed25519_identity_point() -> Seq<u8> {
    Seq::new(32, |i: int| if i == 0 { 1u8 } else { 0u8 })
}

/// `ed25519_dalek::SigningKey::from_bytes(secret).sign(msg)` as bytes.
/// The contract names the signature, a function of the secret and the
/// message alone, and states that `verify_strict` accepts it under the
/// secret's public key whenever its nonce point R (the first 32 bytes) is
/// not the identity: the public key of a clamped secret has prime order,
/// a non-identity R = rB has prime order too, so neither is refused as
/// small-order, and the signature equation holds. (R is the identity only
/// for a nonce that is 0 mod ℓ; `verify_strict` refuses that R.)
#[verifier::external_body]
fn ed25519_sign(secret: &[u8; 32], msg: &[u8]) -> (sig: [u8; 64])
    ensures
        sig@ == ed25519_signature_spec(secret@, msg@),
        sig@.subrange(0, 32) != ed25519_identity_point() ==> ed25519_strict_accepts(
            ed25519_public_key_spec(secret@),
            msg@,
            sig@,
        ),
{
    ed25519_dalek::SigningKey::from_bytes(secret).sign(msg).to_bytes()
}

/// `ed25519_dalek::SigningKey::from_bytes(secret).verifying_key()` as
/// bytes. The contract names the key, a function of the secret alone.
#[verifier::external_body]
fn ed25519_public_key(secret: &[u8; 32]) -> (pk: [u8; 32])
    ensures
        pk@ == ed25519_public_key_spec(secret@),
{
    ed25519_dalek::SigningKey::from_bytes(secret).verifying_key().to_bytes()
}

/// An Ed25519 signing key, held as its 32-byte secret.
#[derive(Clone, Copy, Debug, PartialEq, Eq)]
pub struct SigningKey {
    pub secret: [u8; 32],
}

impl SigningKey {
    /// The signing key of the 32-byte secret `secret`.
    pub fn from_bytes(secret: &[u8; 32]) -> (k: Self)
        ensures
            k.secret == *secret,
    {
        SigningKey { secret: *secret }
    }

    /// The key's 32-byte public key.
    pub fn verifying_key_bytes(&self) -> (pk: [u8; 32])
        ensures
            pk@ == ed25519_public_key_spec(self.secret@),
    {
        ed25519_public_key(&self.secret)
    }
}

/// Sign a manifest body, embedding the signer's public key: the signature
/// is the Ed25519 signature of the body's bytes under the key, and it
/// verifies under the embedded key unless its nonce point is the identity.
pub fn sign_manifest(body: ManifestBody, signing_key: &SigningKey) -> (m: SignedManifest)
    ensures
        m.body == body,
        m.pubkey@ == ed25519_public_key_spec(signing_key.secret@),
        m.signature@ == ed25519_signature_spec(signing_key.secret@, body_bytes(body)),
        m.signature@.subrange(0, 32) != ed25519_identity_point() ==> ed25519_strict_accepts(
            m.pubkey@,
            body_bytes(m.body),
            m.signature@,
        ),
{
    let body_bytes = body.to_bytes();
    let signature = ed25519_sign(&signing_key.secret, body_bytes.as_slice());
    let pubkey = ed25519_public_key(&signing_key.secret);
    SignedManifest { body, pubkey, signature }
}

/// Check the Ed25519 signature of a manifest: `Ok` iff the embedded key
/// strictly verifies the signature over the body's bytes.
pub fn verify_manifest(manifest: &SignedManifest) -> (res: Result<(), ManifestError>)
    ensures
        res is Ok <==> ed25519_strict_accepts(manifest.pubkey@, body_bytes(manifest.body), manifest.signature@),
        res is Err ==> res == Err::<(), ManifestError>(ManifestError::InvalidSignature),
{
    let body_bytes = manifest.body.to_bytes();
    if ed25519_verify_strict(&manifest.pubkey, body_bytes.as_slice(), &manifest.signature) {
        Ok(())
    } else {
        Err(ManifestError::InvalidSignature)
    }
}

// ─────────────────────────────────────────────────────────────────────
// Merkle tree
// ─────────────────────────────────────────────────────────────────────

/// An inner node: the digest of the two children's bytes.
pub open spec fn node(a: Seq<u8>, b: Seq<u8>) -> Seq<u8> {
    sha256_spec(a + b)
}

/// The level above `level`: pairs hashed, an odd last node paired with
/// itself.
pub open spec fn next_level(level: Seq<Seq<u8>>) -> Seq<Seq<u8>> {
    Seq::new(
        ((level.len() + 1) / 2) as nat,
        |i: int| node(level[2 * i], if 2 * i + 1 < level.len() { level[2 * i + 1] } else { level[2 * i] }),
    )
}

/// The root over `level`: all zeros for no leaves, the leaf itself for
/// one.
pub open spec fn root_spec(level: Seq<Seq<u8>>) -> Seq<u8>
    decreases level.len(),
{
    if level.len() == 0 {
        Seq::new(32, |i: int| 0u8)
    } else if level.len() == 1 {
        level[0]
    } else {
        root_spec(next_level(level))
    }
}

/// The siblings of node `idx` of `level`, level by level up to the root.
pub open spec fn path_spec(level: Seq<Seq<u8>>, idx: int) -> Seq<Seq<u8>>
    decreases level.len(),
{
    if level.len() <= 1 {
        Seq::empty()
    } else {
        let sib = if idx % 2 == 0 { idx + 1 } else { idx - 1 };
        let s = if sib < level.len() { level[sib] } else { level[idx] };
        seq![s] + path_spec(next_level(level), idx / 2)
    }
}

/// Hash `cur` (at index `idx`) up through `sibs`.
pub open spec fn fold_path(cur: Seq<u8>, idx: int, sibs: Seq<Seq<u8>>) -> Seq<u8>
    decreases sibs.len(),
{
    if sibs.len() == 0 {
        cur
    } else {
        let up = if idx % 2 == 0 { node(cur, sibs[0]) } else { node(sibs[0], cur) };
        fold_path(up, idx / 2, sibs.drop_first())
    }
}

/// Digests as byte sequences.
pub open spec fn digests(s: Seq<[u8; 32]>) -> Seq<Seq<u8>> {
    s.map_values(|a: [u8; 32]| a@)
}

/// The path of the leaf at `idx` hashes up to the root: for every
/// non-empty leaf level and every index in it, folding the leaf with its
/// path gives the root over the leaves.
pub proof fn lemma_merkle_path_round_trip(level: Seq<Seq<u8>>, idx: int)
    requires
        0 <= idx < level.len(),
    ensures
        fold_path(level[idx], idx, path_spec(level, idx)) == root_spec(level),
    decreases level.len(),
{
    if level.len() > 1 {
        let nl = next_level(level);
        let sib = if idx % 2 == 0 { idx + 1 } else { idx - 1 };
        let s = if sib < level.len() { level[sib] } else { level[idx] };
        let p = path_spec(level, idx);
        assert(p == seq![s] + path_spec(nl, idx / 2));
        assert(p[0] == s);
        assert(p.drop_first() =~= path_spec(nl, idx / 2));
        let up = if idx % 2 == 0 { node(level[idx], s) } else { node(s, level[idx]) };
        let j = idx / 2;
        assert(0 <= j < nl.len());
        if idx % 2 == 0 {
            assert(2 * j == idx);
        } else {
            assert(2 * j + 1 == idx);
        }
        assert(up == nl[j]);
        lemma_merkle_path_round_trip(nl, j);
    }
}

/// The number of levels above `n` leaves: 0 for at most one leaf, else
/// one more than above `ceil(n / 2)`.
pub open spec fn merkle_depth(n: nat) -> nat
    decreases n,
{
    if n <= 1 {
        0
    } else {
        1 + merkle_depth(((n + 1) / 2) as nat)
    }
}

/// `merkle_depth(n)` is `ceil(log2 n)`: the least `d` with `n <= 2^d`.
pub proof fn lemma_merkle_depth_is_ceil_log2(n: nat)
    requires
        n >= 1,
    ensures
        n <= crate::bitreader::p2(merkle_depth(n)),
        n >= 2 ==> crate::bitreader::p2((merkle_depth(n) - 1) as nat) < n,
    decreases n,
{
    if n >= 2 {
        let m = ((n + 1) / 2) as nat;
        lemma_merkle_depth_is_ceil_log2(m);
        assert(crate::bitreader::p2(merkle_depth(n)) == 2 * crate::bitreader::p2(merkle_depth(m)));
        if m >= 2 {
            let d = merkle_depth(m);
            assert(crate::bitreader::p2(d) == 2 * crate::bitreader::p2((d - 1) as nat));
        }
    }
}

/// The path of any leaf has one sibling per level: `merkle_depth` of the
/// number of leaves.
pub proof fn lemma_path_len(level: Seq<Seq<u8>>, idx: int)
    ensures
        path_spec(level, idx).len() == merkle_depth(level.len()),
    decreases level.len(),
{
    if level.len() > 1 {
        let nl = next_level(level);
        assert(nl.len() == (level.len() + 1) / 2);
        lemma_path_len(nl, idx / 2);
    }
}

/// The node over two digests.
fn hash_pair(a: &[u8; 32], b: &[u8; 32]) -> (h: [u8; 32])
    ensures
        h@ == node(a@, b@),
{
    let mut buf: Vec<u8> = Vec::new();
    push_all(&mut buf, a);
    push_all(&mut buf, b);
    hash_leaf(buf.as_slice())
}

/// The level above `level`.
fn next_level_exec(level: &Vec<[u8; 32]>) -> (next: Vec<[u8; 32]>)
    requires
        level@.len() >= 1,
    ensures
        digests(next@) == next_level(digests(level@)),
        next@.len() == (level@.len() + 1) / 2,
{
    let ghost lv = digests(level@);
    let mut next: Vec<[u8; 32]> = Vec::new();
    let n = level.len();
    let pairs = n / 2 + n % 2;
    let mut p: usize = 0;
    while p < pairs
        invariant
            n == level@.len(),
            pairs == (n + 1) / 2,
            p <= pairs,
            lv == digests(level@),
            next@.len() == p,
            forall|t: int| 0 <= t < next@.len() ==> (#[trigger] next@[t])@ == next_level(lv)[t],
        decreases pairs - p,
    {
        let i = 2 * p;
        let right = if i + 1 < n { &level[i + 1] } else { &level[i] };
        let h = hash_pair(&level[i], right);
        assert(next_level(lv)[p as int] == node(lv[i as int], if i + 1 < n { lv[i + 1] } else { lv[i as int] }));
        next.push(h);
        p += 1;
    }
    assert(digests(next@) =~= next_level(lv));
    next
}

/// The digests of `leaves` as a vector.
fn copy_digests(leaves: &[[u8; 32]]) -> (v: Vec<[u8; 32]>)
    ensures
        v@ == leaves@,
{
    let mut v: Vec<[u8; 32]> = Vec::new();
    let mut i: usize = 0;
    while i < leaves.len()
        invariant
            i <= leaves@.len(),
            v@ == leaves@.subrange(0, i as int),
        decreases leaves@.len() - i,
    {
        v.push(leaves[i]);
        i += 1;
        assert(v@ =~= leaves@.subrange(0, i as int));
    }
    assert(leaves@.subrange(0, leaves@.len() as int) =~= leaves@);
    v
}

/// The Merkle root over `leaves`.
pub fn merkle_root(leaves: &[[u8; 32]]) -> (root: [u8; 32])
    ensures
        root@ == root_spec(digests(leaves@)),
{
    if leaves.len() == 0 {
        let z = [0u8; 32];
        assert(z@ =~= Seq::new(32, |i: int| 0u8));
        return z;
    }
    if leaves.len() == 1 {
        return leaves[0];
    }
    let mut level: Vec<[u8; 32]> = copy_digests(leaves);
    assert(level@ == leaves@);
    while level.len() > 1
        invariant
            level@.len() >= 1,
            root_spec(digests(level@)) == root_spec(digests(leaves@)),
        decreases level@.len(),
    {
        level = next_level_exec(&level);
    }
    level[0]
}

/// The authentication path of `leaves[index]`.
pub fn merkle_path(leaves: &[[u8; 32]], index: usize) -> (res: Result<MerklePath, ManifestError>)
    ensures
        leaves@.len() == 0 || index >= leaves@.len() ==> res == Err::<MerklePath, ManifestError>(ManifestError::InvalidPath),
        leaves@.len() > 0 && index < leaves@.len() ==> (res matches Ok(p) && p.index == index
            && digests(p.siblings@) == path_spec(digests(leaves@), index as int)
            && p.siblings@.len() == merkle_depth(leaves@.len())),
{
    proof { lemma_path_len(digests(leaves@), index as int); }
    if leaves.len() == 0 || index >= leaves.len() {
        return Err(ManifestError::InvalidPath);
    }
    let mut siblings: Vec<[u8; 32]> = Vec::new();
    let mut current_idx = index;
    let mut level: Vec<[u8; 32]> = copy_digests(leaves);
    assert(level@ == leaves@);
    while level.len() > 1
        invariant
            level@.len() >= 1,
            current_idx < level@.len(),
            digests(siblings@) + path_spec(digests(level@), current_idx as int) == path_spec(digests(leaves@), index as int),
        decreases level@.len(),
    {
        let ghost lv = digests(level@);
        let sibling_idx = if current_idx % 2 == 0 { current_idx + 1 } else { current_idx - 1 };
        let sibling = if sibling_idx < level.len() { level[sibling_idx] } else { level[current_idx] };
        let ghost before = digests(siblings@);
        siblings.push(sibling);
        assert(digests(siblings@) =~= before + seq![sibling@]);
        let next = next_level_exec(&level);
        let ghost rest = path_spec(next_level(lv), current_idx as int / 2);
        assert(path_spec(lv, current_idx as int) == seq![sibling@] + rest);
        assert(digests(siblings@) + rest =~= before + path_spec(lv, current_idx as int));
        level = next;
        current_idx = current_idx / 2;
    }
    assert(path_spec(digests(level@), current_idx as int) =~= Seq::<Seq<u8>>::empty());
    assert(digests(siblings@) =~= path_spec(digests(leaves@), index as int));
    Ok(MerklePath { index, siblings })
}

/// Whether two digests are equal.
fn digest_eq(a: &[u8; 32], b: &[u8; 32]) -> (r: bool)
    ensures
        r == (a@ == b@),
{
    let mut i: usize = 0;
    while i < 32
        invariant
            i <= 32,
            forall|t: int| 0 <= t < i ==> a@[t] == b@[t],
        decreases 32 - i,
    {
        if a[i] != b[i] {
            return false;
        }
        i += 1;
    }
    assert(a@ =~= b@);
    true
}

/// Check that `leaf` at `path.index` hashes up to `root` through
/// `path.siblings`.
pub fn verify_merkle_path(root: &[u8; 32], leaf: &[u8; 32], path: &MerklePath) -> (res: Result<(), ManifestError>)
    ensures
        res is Ok <==> fold_path(leaf@, path.index as int, digests(path.siblings@)) == root@,
        res is Err ==> res == Err::<(), ManifestError>(ManifestError::InvalidMerkleRoot),
{
    let mut current = *leaf;
    let mut idx = path.index;
    let ghost sibs = digests(path.siblings@);
    assert(sibs.subrange(0, sibs.len() as int) =~= sibs);
    let mut i: usize = 0;
    while i < path.siblings.len()
        invariant
            i <= path.siblings@.len(),
            sibs == digests(path.siblings@),
            fold_path(leaf@, path.index as int, sibs) == fold_path(current@, idx as int, sibs.subrange(i as int, sibs.len() as int)),
        decreases path.siblings@.len() - i,
    {
        let sibling = &path.siblings[i];
        let ghost rest = sibs.subrange(i as int, sibs.len() as int);
        assert(rest[0] == sibling@);
        assert(rest.drop_first() =~= sibs.subrange(i + 1, sibs.len() as int));
        if idx % 2 == 0 {
            current = hash_pair(&current, sibling);
        } else {
            current = hash_pair(sibling, &current);
        }
        idx = idx / 2;
        i += 1;
    }
    assert(sibs.subrange(i as int, sibs.len() as int) =~= Seq::<Seq<u8>>::empty());
    if digest_eq(&current, root) {
        Ok(())
    } else {
        Err(ManifestError::InvalidMerkleRoot)
    }
}

} // verus!
