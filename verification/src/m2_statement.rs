//! The derivation claim: the manifest's signature holds, every 8×8 luma
//! block of the original frame authenticates against the manifest's video
//! Merkle root, the compressed frame decodes to the original's size, and
//! the decoded frame's PSNR against the original meets the tolerance. The
//! PSNR of a plane is a floating-point logarithm, so the caller computes
//! it between `authenticate_and_decode` and `psnr_verdict`.

use vstd::prelude::*;

use crate::comparator::FramePsnrResult;
use crate::manifest::{
    body_bytes, digests, ed25519_strict_accepts, fold_path, hash_leaf, sha256_spec, verify_manifest,
    verify_merkle_path, MerklePath, SignedManifest,
};
use crate::toy_codec::{block_pixels, decode_toy, decode_toy_spec, BqBitstream, YuvFrame};

verus! {

/// Why a claim was rejected.
#[derive(Clone, Debug, PartialEq, Eq)]
pub enum ClaimError {
    /// The manifest signature does not verify under its embedded key.
    ManifestSignatureInvalid,
    /// The number of Merkle paths is not the number of 8×8 luma blocks.
    MerklePathCountMismatch,
    /// The path of this block does not authenticate it.
    MerklePathInvalid { block_index: usize },
    /// The stream does not decode, or decodes to another size.
    DecodeFailed,
    /// The combined PSNR is below the tolerance.
    PsnrBelowTolerance(FramePsnrResult),
}

/// The luma plane holds the whole `width`×`height` picture.
pub open spec fn luma_covers(f: YuvFrame) -> bool {
    f.y@.len() >= f.width as int * f.height as int
}

/// The digest of block (`bx`, `by`) of the luma plane of a frame of width
/// `w`.
pub open spec fn block_digest(y: Seq<u8>, w: int, bx: int, by: int) -> Seq<u8> {
    sha256_spec(block_pixels(y, w, bx, by))
}

proof fn lemma_block_in_plane(w: int, h: int, bx: int, by: int, i: int)
    by (nonlinear_arith)
    requires
        0 <= bx < w / 8,
        0 <= by < h / 8,
        0 <= i < 64,
        w >= 0,
    ensures
        0 <= (by * 8 + i / 8) * w + bx * 8 + i % 8 < w * h,
{
    assert(bx * 8 + i % 8 < w);
    assert(by * 8 + i / 8 < h);
    assert((by * 8 + i / 8) * w + bx * 8 + i % 8 < (by * 8 + i / 8 + 1) * w);
    assert((by * 8 + i / 8 + 1) * w <= h * w);
}

/// Hash the 8×8 luma block at block column `bx`, block row `by`: the
/// digest of its 64 samples, row by row.
pub fn hash_block(frame: &YuvFrame, bx: usize, by: usize) -> (h: [u8; 32])
    requires
        luma_covers(*frame),
        bx < frame.width / 8,
        by < frame.height / 8,
    ensures
        h@ == block_digest(frame.y@, frame.width as int, bx as int, by as int),
{
    let w = frame.width as usize;
    let ghost hh = frame.height as int;
    let ylen = frame.y.len();
    let mut buf: Vec<u8> = Vec::new();
    let mut i: usize = 0;
    while i < 64
        invariant
            i <= 64,
            w == frame.width,
            hh == frame.height,
            bx < w / 8,
            by < hh / 8,
            ylen == frame.y@.len(),
            luma_covers(*frame),
            buf@ == block_pixels(frame.y@, w as int, bx as int, by as int).subrange(0, i as int),
        decreases 64 - i,
    {
        proof { lemma_block_in_plane(w as int, hh, bx as int, by as int, i as int); }
        buf.push(frame.y[(by * 8 + i / 8) * w + bx * 8 + i % 8]);
        i += 1;
        assert(buf@ =~= block_pixels(frame.y@, w as int, bx as int, by as int).subrange(0, i as int));
    }
    assert(buf@ =~= block_pixels(frame.y@, w as int, bx as int, by as int));
    hash_leaf(buf.as_slice())
}

/// The digests of all 8×8 luma blocks in raster order.
pub open spec fn leaves_spec(f: YuvFrame) -> Seq<Seq<u8>> {
    let bw = f.width / 8;
    let bh = f.height / 8;
    Seq::new((bw * bh) as nat, |k: int| block_digest(f.y@, f.width as int, k % (bw as int), k / (bw as int)))
}

/// The Merkle leaves of a frame: one digest per 8×8 luma block, in
/// raster order.
pub fn frame_merkle_leaves(frame: &YuvFrame) -> (leaves: Vec<[u8; 32]>)
    requires
        luma_covers(*frame),
    ensures
        digests(leaves@) == leaves_spec(*frame),
{
    let bw = frame.width as usize / 8;
    let bh = frame.height as usize / 8;
    let mut leaves: Vec<[u8; 32]> = Vec::new();
    let mut by: usize = 0;
    while by < bh
        invariant
            by <= bh,
            bw == frame.width / 8,
            bh == frame.height / 8,
            luma_covers(*frame),
            digests(leaves@) =~= leaves_spec(*frame).subrange(0, (by * bw) as int),
        decreases bh - by,
    {
        let mut bx: usize = 0;
        while bx < bw
            invariant
                bx <= bw,
                by < bh,
                bw == frame.width / 8,
                bh == frame.height / 8,
                luma_covers(*frame),
                digests(leaves@) =~= leaves_spec(*frame).subrange(0, (by * bw + bx) as int),
            decreases bw - bx,
        {
            let h = hash_block(frame, bx, by);
            let ghost k = (by * bw + bx) as int;
            let ghost before = digests(leaves@);
            proof {
                vstd::arithmetic::div_mod::lemma_fundamental_div_mod_converse(k, bw as int, by as int, bx as int);
                assert(k < bw * bh) by (nonlinear_arith)
                    requires
                        k == by * bw + bx,
                        bx < bw,
                        by < bh;
            }
            leaves.push(h);
            assert(digests(leaves@) =~= before.push(h@));
            assert(leaves_spec(*frame)[k] == h@);
            assert(digests(leaves@) =~= leaves_spec(*frame).subrange(0, k + 1));
            bx += 1;
        }
        assert((by * bw + bw) as int == ((by + 1) * bw) as int) by (nonlinear_arith);
        by += 1;
    }
    assert((bh * bw) as int == (bw * bh) as int) by (nonlinear_arith);
    leaves
}

/// A Merkle path as plain values: its index and its siblings.
pub open spec fn path_model(p: MerklePath) -> (usize, Seq<Seq<u8>>) {
    (p.index, digests(p.siblings@))
}

/// The first block from `i` on whose path does not lead from its leaf to
/// `root`.
pub open spec fn first_bad_path(paths: Seq<(usize, Seq<Seq<u8>>)>, leaves: Seq<Seq<u8>>, root: Seq<u8>, i: int) -> Option<int>
    decreases paths.len() - i,
{
    if i < 0 || i >= paths.len() {
        None
    } else if fold_path(leaves[i], paths[i].0 as int, paths[i].1) != root {
        Some(i)
    } else {
        first_bad_path(paths, leaves, root, i + 1)
    }
}

/// What `authenticate_and_decode` returns: the decoded frame's plain
/// values, or the first check that fails.
pub open spec fn claim_spec(
    signed: SignedManifest,
    bs: BqBitstream,
    original: YuvFrame,
    paths: Seq<(usize, Seq<Seq<u8>>)>,
) -> Result<(u16, u16, Seq<u8>, Seq<u8>, Seq<u8>), ClaimError> {
    let bw = original.width / 8;
    let bh = original.height / 8;
    if !ed25519_strict_accepts(signed.pubkey@, body_bytes(signed.body), signed.signature@) {
        Err(ClaimError::ManifestSignatureInvalid)
    } else if paths.len() != bw * bh {
        Err(ClaimError::MerklePathCountMismatch)
    } else {
        match first_bad_path(paths, leaves_spec(original), signed.body.video.merkle_root@, 0) {
            Some(i) => Err(ClaimError::MerklePathInvalid { block_index: i as usize }),
            None => match decode_toy_spec(bs.header, bs.coeffs_y@, bs.coeffs_u@, bs.coeffs_v@) {
                Err(_) => Err(ClaimError::DecodeFailed),
                Ok((w, h, y, u, v)) => if w != original.width || h != original.height {
                    Err(ClaimError::DecodeFailed)
                } else {
                    Ok((w, h, y, u, v))
                },
            },
        }
    }
}

/// Stages one to three of the claim: the signature, the Merkle
/// authentication of every 8×8 luma block of `original`, and the decode
/// of `bitstream` to a frame of `original`'s size, which is returned.
pub fn authenticate_and_decode(
    signed: &SignedManifest,
    bitstream: &BqBitstream,
    original: &YuvFrame,
    block_paths: &[MerklePath],
) -> (res: Result<YuvFrame, ClaimError>)
    requires
        luma_covers(*original),
    ensures
        match claim_spec(*signed, *bitstream, *original, block_paths@.map_values(|p: MerklePath| path_model(p))) {
            Ok((w, h, y, u, v)) => res matches Ok(f) && f.width == w && f.height == h && f.y@ == y && f.u@ == u && f.v@ == v,
            Err(e) => res == Err::<YuvFrame, ClaimError>(e),
        },
{
    let ghost pm = block_paths@.map_values(|p: MerklePath| path_model(p));
    if verify_manifest(signed).is_err() {
        return Err(ClaimError::ManifestSignatureInvalid);
    }
    let bw = original.width as usize / 8;
    let bh = original.height as usize / 8;
    assert(bw * bh <= 0x2000 * 0x2000) by (nonlinear_arith)
        requires
            bw <= 0x2000,
            bh <= 0x2000;
    if block_paths.len() != bw * bh {
        return Err(ClaimError::MerklePathCountMismatch);
    }
    let ghost leaves = leaves_spec(*original);
    let ghost root = signed.body.video.merkle_root@;
    let mut i: usize = 0;
    while i < block_paths.len()
        invariant
            i <= block_paths@.len(),
            block_paths@.len() == bw * bh,
            bw == original.width / 8,
            bh == original.height / 8,
            luma_covers(*original),
            pm == block_paths@.map_values(|p: MerklePath| path_model(p)),
            leaves == leaves_spec(*original),
            root == signed.body.video.merkle_root@,
            ed25519_strict_accepts(signed.pubkey@, body_bytes(signed.body), signed.signature@),
            pm.len() == block_paths@.len(),
            first_bad_path(pm, leaves, root, 0) == first_bad_path(pm, leaves, root, i as int),
        decreases block_paths@.len() - i,
    {
        let by = i / bw;
        let bx = i % bw;
        proof {
            assert(by < bh) by (nonlinear_arith)
                requires
                    i < bw * bh,
                    by == i / bw,
                    bw > 0;
        }
        let leaf = hash_block(original, bx, by);
        assert(leaf@ == leaves[i as int]);
        assert(pm[i as int] == path_model(block_paths@[i as int]));
        if verify_merkle_path(&signed.body.video.merkle_root, &leaf, &block_paths[i]).is_err() {
            return Err(ClaimError::MerklePathInvalid { block_index: i });
        }
        i += 1;
    }
    let decoded = match decode_toy(bitstream) {
        Ok(f) => f,
        Err(_) => { return Err(ClaimError::DecodeFailed); },
    };
    if decoded.width != original.width || decoded.height != original.height {
        return Err(ClaimError::DecodeFailed);
    }
    Ok(decoded)
}

/// Stage four of the claim: the frame's PSNR result, or the rejection
/// that carries it when it falls below the tolerance.
pub fn psnr_verdict(psnr: FramePsnrResult) -> (res: Result<FramePsnrResult, ClaimError>)
    ensures
        psnr.meets_threshold ==> res == Ok::<FramePsnrResult, ClaimError>(psnr),
        !psnr.meets_threshold ==> res == Err::<FramePsnrResult, ClaimError>(ClaimError::PsnrBelowTolerance(psnr)),
{
    if !psnr.meets_threshold {
        return Err(ClaimError::PsnrBelowTolerance(psnr));
    }
    Ok(psnr)
}

} // verus!
