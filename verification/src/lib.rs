//! snarkvid: a baseline H.264 I-frame decoder, the BlockQuant toy codec,
//! the frame comparator, the signed manifest with its Merkle tree, and the
//! claim that a compressed frame derives from a signed original, with
//! their contracts proved by Verus.

#![allow(unused_imports)]

use vstd::prelude::*;

pub mod bitreader;
pub mod nal;
pub mod transform;
pub mod quant;
pub mod intra;
pub mod cavlc;
pub mod mb;
pub mod slice;
pub mod error;
pub mod sps;
pub mod pps;
pub mod frame;
pub mod toy_codec;
pub mod comparator;
pub mod bytes;
pub mod manifest;
pub mod m2_statement;
pub mod host;
pub mod workloads;

verus! {

/// Errors that can occur during H.264 decoding (bit reader, NAL framing,
/// CAVLC, macroblock and frame layers).
#[derive(Clone, Debug, PartialEq, Eq)]
pub enum DecodeError {
    /// Bit reader hit EOF mid-codeword.
    BitstreamTruncated,
    /// Invalid NAL unit framing.
    InvalidNalFraming,
    /// NAL unit type out of scope (e.g. P-frame slice, multi-slice IDR).
    UnsupportedNalUnitType(u8),
    /// Exp-Golomb codeword exceeded the maximum length we accept.
    ExpGolombTooLong,
    /// SPS/PPS parsing decided the bitstream uses an unsupported profile.
    UnsupportedProfile,
    /// CAVLC reached an out-of-table state.
    CavlcInvalid,
    /// The bitstream violates the supported subset; carries a short reason.
    OutOfScope(&'static str),
}

} // verus!
