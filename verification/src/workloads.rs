//! The benchmark workloads the proving harnesses run, with their native
//! references: the SHA-256 preimage check, the one-block toy decode and
//! its commitment, and the step and clamp arithmetic of the folding
//! circuits.

use vstd::prelude::*;

use crate::manifest::{hash_leaf, sha256_spec};
use crate::toy_codec::{
    decode_toy, decode_toy_spec, encode_toy, encode_toy_spec, lemma_toy_round_trip_lossless, BqBitstream,
    BqHeader, ToyCodecError, YuvFrame,
};

verus! {

/// The first 384 bytes of `data`, padded with zeros: one 16×16 4:2:0
/// frame's worth of samples.
pub open spec fn padded_384(data: Seq<u8>) -> Seq<u8> {
    Seq::new(384, |i: int| if i < data.len() { data[i] } else { 0u8 })
}

/// A copy of `data[from..to]`, zero past the end of `data`.
fn padded_range(data: &[u8], from: usize, to: usize) -> (v: Vec<u8>)
    requires
        from <= to <= 384,
    ensures
        v@ == padded_384(data@).subrange(from as int, to as int),
{
    let mut v: Vec<u8> = Vec::new();
    let mut i = from;
    while i < to
        invariant
            from <= i <= to <= 384,
            v@ == padded_384(data@).subrange(from as int, i as int),
        decreases to - i,
    {
        let b = if i < data.len() { data[i] } else { 0u8 };
        v.push(b);
        i += 1;
        assert(v@ =~= padded_384(data@).subrange(from as int, i as int));
    }
    v
}

/// The deterministic 16×16 4:2:0 frame of the toy-decode fixture: the
/// leading 384 bytes of `data` (zero-padded) as Y, then U, then V.
pub fn build_toy_frame(data: &[u8]) -> (f: YuvFrame)
    ensures
        f.width == 16,
        f.height == 16,
        f.y@ == padded_384(data@).subrange(0, 256),
        f.u@ == padded_384(data@).subrange(256, 320),
        f.v@ == padded_384(data@).subrange(320, 384),
{
    let y = padded_range(data, 0, 256);
    let u = padded_range(data, 256, 320);
    let v = padded_range(data, 320, 384);
    YuvFrame { width: 16, height: 16, y, u, v }
}

/// The concatenation `a ++ b ++ c` as a vector.
fn concat3(a: &Vec<u8>, b: &Vec<u8>, c: &Vec<u8>) -> (out: Vec<u8>)
    ensures
        out@ == a@ + b@ + c@,
{
    let mut out: Vec<u8> = Vec::new();
    let mut i: usize = 0;
    while i < a.len()
        invariant
            i <= a@.len(),
            out@ == a@.subrange(0, i as int),
        decreases a@.len() - i,
    {
        out.push(a[i]);
        i += 1;
        assert(out@ =~= a@.subrange(0, i as int));
    }
    let ghost ab = a@;
    let mut i: usize = 0;
    while i < b.len()
        invariant
            i <= b@.len(),
            ab == a@,
            out@ == ab + b@.subrange(0, i as int),
        decreases b@.len() - i,
    {
        out.push(b[i]);
        i += 1;
        assert(out@ =~= ab + b@.subrange(0, i as int));
    }
    let ghost abc = a@ + b@;
    let mut i: usize = 0;
    while i < c.len()
        invariant
            i <= c@.len(),
            abc == a@ + b@,
            out@ == abc + c@.subrange(0, i as int),
        decreases c@.len() - i,
    {
        out.push(c[i]);
        i += 1;
        assert(out@ =~= abc + c@.subrange(0, i as int));
    }
    assert(a@.subrange(0, a@.len() as int) =~= a@);
    assert(b@.subrange(0, b@.len() as int) =~= b@);
    assert(c@.subrange(0, c@.len() as int) =~= c@);
    out
}

/// The SHA-256 digest of a frame's samples, Y then U then V.
fn frame_digest(f: &YuvFrame) -> (d: [u8; 32])
    ensures
        d@ == sha256_spec(f.y@ + f.u@ + f.v@),
{
    let all = concat3(&f.y, &f.u, &f.v);
    hash_leaf(all.as_slice())
}

/// The native commitment of the toy-decode workload: the digest of the
/// frame after a QP-0 encode and decode, which is the digest of the frame
/// itself.
pub fn toy_native_commitment(frame: &YuvFrame) -> (res: Result<[u8; 32], ToyCodecError>)
    ensures
        match encode_toy_spec(frame.width, frame.height, frame.y@, frame.u@, frame.v@, 0) {
            Err(e) => res == Err::<[u8; 32], ToyCodecError>(e),
            Ok(_) => res matches Ok(d) && d@ == sha256_spec(frame.y@ + frame.u@ + frame.v@),
        },
{
    let bs = match encode_toy(frame, 0) {
        Ok(bs) => bs,
        Err(e) => { return Err(e); },
    };
    proof {
        lemma_toy_round_trip_lossless(frame.width, frame.height, frame.y@, frame.u@, frame.v@, 0);
    }
    let decoded = match decode_toy(&bs) {
        Ok(f) => f,
        Err(e) => { return Err(e); },
    };
    Ok(frame_digest(&decoded))
}

/// The coefficients `bytes[from..to]`, each byte taken as an `i16`.
fn coeffs_of(bytes: &[u8], from: usize, to: usize) -> (c: Vec<i16>)
    requires
        from <= to <= bytes@.len(),
    ensures
        c@ == bytes@.subrange(from as int, to as int).map_values(|b: u8| b as i16),
{
    let mut c: Vec<i16> = Vec::new();
    let mut i = from;
    while i < to
        invariant
            from <= i <= to <= bytes@.len(),
            c@ == bytes@.subrange(from as int, i as int).map_values(|b: u8| b as i16),
        decreases to - i,
    {
        c.push(bytes[i] as i16);
        i += 1;
        assert(c@ =~= bytes@.subrange(from as int, i as int).map_values(|b: u8| b as i16));
    }
    c
}

/// The 16×16 QP-0 stream whose coefficients are the 384 bytes.
pub open spec fn one_block_stream(bytes: Seq<u8>) -> (BqHeader, Seq<i16>, Seq<i16>, Seq<i16>) {
    (
        BqHeader { width: 16, height: 16, qp: 0, chroma_format: 1 },
        bytes.subrange(0, 256).map_values(|b: u8| b as i16),
        bytes.subrange(256, 320).map_values(|b: u8| b as i16),
        bytes.subrange(320, 384).map_values(|b: u8| b as i16),
    )
}

/// The toy-decode workload: read the 384 bytes as the coefficients of a
/// 16×16 QP-0 stream, decode it, and return the digest of the decoded
/// samples.
pub fn toy_decode_one_block(yuv_bytes: &[u8]) -> (d: [u8; 32])
    requires
        yuv_bytes@.len() == 384,
    ensures
        ({
            let (hd, cy, cu, cv) = one_block_stream(yuv_bytes@);
            decode_toy_spec(hd, cy, cu, cv) matches Ok((w, h, y, u, v)) && d@ == sha256_spec(y + u + v)
        }),
{
    let header = BqHeader { width: 16, height: 16, qp: 0, chroma_format: 1 };
    let coeffs_y = coeffs_of(yuv_bytes, 0, 256);
    let coeffs_u = coeffs_of(yuv_bytes, 256, 320);
    let coeffs_v = coeffs_of(yuv_bytes, 320, 384);
    let bitstream = BqBitstream { header, coeffs_y, coeffs_u, coeffs_v };
    assert(bitstream.coeffs_y@.len() == 256);
    assert(bitstream.coeffs_u@.len() == 64);
    assert(bitstream.coeffs_v@.len() == 64);
    assert(bitstream.header.width == 16 && bitstream.header.height == 16);
    assert(crate::toy_codec::dims_ok(16u16, 16u16));
    assert(bitstream.header.qp == 0 && bitstream.header.chroma_format == 1);
    assert(decode_toy_spec(bitstream.header, bitstream.coeffs_y@, bitstream.coeffs_u@, bitstream.coeffs_v@) is Ok);
    let frame = match decode_toy(&bitstream) {
        Ok(f) => f,
        Err(_) => {
            proof { assert(false); }
            return [0u8; 32];
        },
    };
    frame_digest(&frame)
}

/// The SHA-256 preimage workload: the digest of `data` and the echoed
/// minimum size, for a witness at least `min_size` long (its length taken
/// modulo 2^32).
pub fn sha2_preimage(min_size: u32, data: &[u8]) -> (r: ([u8; 32], u32))
    requires
        data@.len() as u32 >= min_size,
    ensures
        r.0@ == sha256_spec(data@),
        r.1 == min_size,
{
    (hash_leaf(data), min_size)
}

/// Number of fold steps for an `len`-byte fixture: one step per 32 bytes
/// (at least one), capped at `max_steps`.
pub fn sha_steps(len: usize, max_steps: usize) -> (n: usize)
    requires
        len + 31 <= usize::MAX,
    ensures
        n as int == {
            let k = (len + 31) / 32;
            let k1 = if k < 1 { 1 } else { k };
            if k1 > max_steps { max_steps as int } else { k1 }
        },
{
    let k = (len + 31) / 32;
    let k1 = if k < 1 { 1 } else { k };
    if k1 > max_steps { max_steps } else { k1 }
}

/// The sample a folding-circuit coefficient clamps to: the 16-bit value
/// read as signed, clamped to 0..=255.
pub open spec fn clamp_native_spec(c: u16) -> u8 {
    let s: int = if c >= 0x8000 { c as int - 0x10000 } else { c as int };
    if s < 0 { 0 } else if s > 255 { 255 } else { s as u8 }
}

/// Clamp the `i16` reading of `coeff_u16` to 0..=255.
pub fn clamp_native(coeff_u16: u16) -> (r: u8)
    ensures
        r == clamp_native_spec(coeff_u16),
{
    if coeff_u16 >= 0x8000 {
        0
    } else if coeff_u16 > 255 {
        255
    } else {
        coeff_u16 as u8
    }
}

} // verus!
