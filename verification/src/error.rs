//! The error type of the stand-alone SPS and PPS parsers.

use vstd::prelude::*;
use vstd::string::StringExecFns;

verus! {

/// Errors of the stand-alone SPS and PPS parsers: every variant is a
/// non-recoverable parse failure or a feature outside the baseline
/// subset.
#[derive(Debug, PartialEq, Eq)]
pub enum DecodeError {
    /// The reader ran out of bits before a read could finish.
    EndOfStream,
    /// An Exp-Golomb prefix exceeded the supported width.
    ExpGolombOverflow,
    /// A read wider than 32 bits was asked for.
    ReadTooWide,
    /// The bitstream did not start with a valid start code.
    NoStartCode,
    /// A feature outside the supported subset.
    UnsupportedFeature(&'static str),
    /// A value outside the supported range.
    OutOfRange(&'static str),
}

impl DecodeError {
    /// The error as a one-line message.
    pub fn message(&self) -> (s: String)
        ensures
            match *self {
                DecodeError::EndOfStream => s@ == "h264: bitreader ran out of bits"@,
                DecodeError::ExpGolombOverflow => s@ == "h264: Exp-Golomb prefix > 32 leading zeros"@,
                DecodeError::ReadTooWide => s@ == "h264: read_bits called with width > 32"@,
                DecodeError::NoStartCode => s@ == "h264: no NAL start code at expected position"@,
                DecodeError::UnsupportedFeature(m) => s@ == "h264: unsupported feature: "@ + m@,
                DecodeError::OutOfRange(m) => s@ == "h264: out-of-range value: "@ + m@,
            },
    {
        match self {
            DecodeError::EndOfStream => String::from_str("h264: bitreader ran out of bits"),
            DecodeError::ExpGolombOverflow => String::from_str("h264: Exp-Golomb prefix > 32 leading zeros"),
            DecodeError::ReadTooWide => String::from_str("h264: read_bits called with width > 32"),
            DecodeError::NoStartCode => String::from_str("h264: no NAL start code at expected position"),
            DecodeError::UnsupportedFeature(m) => String::from_str("h264: unsupported feature: ").concat(m),
            DecodeError::OutOfRange(m) => String::from_str("h264: out-of-range value: ").concat(m),
        }
    }
}

/// The parser error for a bit-reader error.
pub open spec fn from_reader_spec(e: crate::DecodeError) -> DecodeError {
    match e {
        crate::DecodeError::BitstreamTruncated => DecodeError::EndOfStream,
        crate::DecodeError::ExpGolombTooLong => DecodeError::ExpGolombOverflow,
        _ => DecodeError::OutOfRange("bit reader"),
    }
}

/// Map a bit-reader error to the parser error: running out of bits is
/// `EndOfStream`, an over-long Exp-Golomb code `ExpGolombOverflow`.
pub fn from_reader(e: crate::DecodeError) -> (r: DecodeError)
    ensures
        r == from_reader_spec(e),
{
    match e {
        crate::DecodeError::BitstreamTruncated => DecodeError::EndOfStream,
        crate::DecodeError::ExpGolombTooLong => DecodeError::ExpGolombOverflow,
        _ => DecodeError::OutOfRange("bit reader"),
    }
}

} // verus!
