//! NAL unit type constants from H.264 Table 7-1.

use vstd::prelude::*;

verus! {

pub const NON_IDR_SLICE: u8 = 1;
pub const IDR_SLICE: u8 = 5;
pub const SEI: u8 = 6;
pub const SPS: u8 = 7;
pub const PPS: u8 = 8;
pub const AU_DELIMITER: u8 = 9;
pub const END_OF_SEQUENCE: u8 = 10;
pub const END_OF_STREAM: u8 = 11;
pub const FILLER_DATA: u8 = 12;

} // verus!
