//! The CAVLC lookup tables (Tables 9-5, 9-7 and 9-10), each as a spec
//! sequence and as a static slice that is proved equal to it.

use vstd::prelude::*;

use super::{ct_values_ok, values_at_most, VlcEntry};

verus! {

/// coeff_token table for nC in [0, 2) (Table 9-5); value = TotalCoeff * 4 + TrailingOnes.
pub open spec fn coeff_token_vlc0_spec() -> Seq<VlcEntry> {
    seq![
        VlcEntry { codeword: 0b1, codeword_len: 1, value: 0 },
        VlcEntry { codeword: 0b000101, codeword_len: 6, value: 4 },
        VlcEntry { codeword: 0b01, codeword_len: 2, value: 5 },
        VlcEntry { codeword: 0b00000111, codeword_len: 8, value: 8 },
        VlcEntry { codeword: 0b000100, codeword_len: 6, value: 9 },
        VlcEntry { codeword: 0b001, codeword_len: 3, value: 10 },
        VlcEntry { codeword: 0b000000111, codeword_len: 9, value: 12 },
        VlcEntry { codeword: 0b00000110, codeword_len: 8, value: 13 },
        VlcEntry { codeword: 0b0000101, codeword_len: 7, value: 14 },
        VlcEntry { codeword: 0b00011, codeword_len: 5, value: 15 },
        VlcEntry { codeword: 0b0000000111, codeword_len: 10, value: 16 },
        VlcEntry { codeword: 0b000000110, codeword_len: 9, value: 17 },
        VlcEntry { codeword: 0b00000101, codeword_len: 8, value: 18 },
        VlcEntry { codeword: 0b000011, codeword_len: 6, value: 19 },
        VlcEntry { codeword: 0b00000000111, codeword_len: 11, value: 20 },
        VlcEntry { codeword: 0b0000000110, codeword_len: 10, value: 21 },
        VlcEntry { codeword: 0b000000101, codeword_len: 9, value: 22 },
        VlcEntry { codeword: 0b0000100, codeword_len: 7, value: 23 },
        VlcEntry { codeword: 0b0000000001111, codeword_len: 13, value: 24 },
        VlcEntry { codeword: 0b00000000110, codeword_len: 11, value: 25 },
        VlcEntry { codeword: 0b0000000101, codeword_len: 10, value: 26 },
        VlcEntry { codeword: 0b00000100, codeword_len: 8, value: 27 },
        VlcEntry { codeword: 0b0000000001011, codeword_len: 13, value: 28 },
        VlcEntry { codeword: 0b0000000001110, codeword_len: 13, value: 29 },
        VlcEntry { codeword: 0b00000000101, codeword_len: 11, value: 30 },
        VlcEntry { codeword: 0b000000100, codeword_len: 9, value: 31 },
        VlcEntry { codeword: 0b0000000001000, codeword_len: 13, value: 32 },
        VlcEntry { codeword: 0b0000000001010, codeword_len: 13, value: 33 },
        VlcEntry { codeword: 0b0000000001101, codeword_len: 13, value: 34 },
        VlcEntry { codeword: 0b0000000100, codeword_len: 10, value: 35 },
        VlcEntry { codeword: 0b00000000001111, codeword_len: 14, value: 36 },
        VlcEntry { codeword: 0b00000000001110, codeword_len: 14, value: 37 },
        VlcEntry { codeword: 0b0000000001001, codeword_len: 13, value: 38 },
        VlcEntry { codeword: 0b00000000100, codeword_len: 11, value: 39 },
        VlcEntry { codeword: 0b00000000001011, codeword_len: 14, value: 40 },
        VlcEntry { codeword: 0b00000000001010, codeword_len: 14, value: 41 },
        VlcEntry { codeword: 0b00000000001101, codeword_len: 14, value: 42 },
        VlcEntry { codeword: 0b0000000001100, codeword_len: 13, value: 43 },
        VlcEntry { codeword: 0b000000000001111, codeword_len: 15, value: 44 },
        VlcEntry { codeword: 0b000000000001110, codeword_len: 15, value: 45 },
        VlcEntry { codeword: 0b00000000001001, codeword_len: 14, value: 46 },
        VlcEntry { codeword: 0b00000000001100, codeword_len: 14, value: 47 },
        VlcEntry { codeword: 0b000000000001011, codeword_len: 15, value: 48 },
        VlcEntry { codeword: 0b000000000001010, codeword_len: 15, value: 49 },
        VlcEntry { codeword: 0b000000000001101, codeword_len: 15, value: 50 },
        VlcEntry { codeword: 0b00000000001000, codeword_len: 14, value: 51 },
        VlcEntry { codeword: 0b0000000000001111, codeword_len: 16, value: 52 },
        VlcEntry { codeword: 0b000000000000001, codeword_len: 15, value: 53 },
        VlcEntry { codeword: 0b000000000001001, codeword_len: 15, value: 54 },
        VlcEntry { codeword: 0b000000000001100, codeword_len: 15, value: 55 },
        VlcEntry { codeword: 0b0000000000001011, codeword_len: 16, value: 56 },
        VlcEntry { codeword: 0b0000000000001110, codeword_len: 16, value: 57 },
        VlcEntry { codeword: 0b0000000000001101, codeword_len: 16, value: 58 },
        VlcEntry { codeword: 0b000000000001000, codeword_len: 15, value: 59 },
        VlcEntry { codeword: 0b0000000000000111, codeword_len: 16, value: 60 },
        VlcEntry { codeword: 0b0000000000001010, codeword_len: 16, value: 61 },
        VlcEntry { codeword: 0b0000000000001001, codeword_len: 16, value: 62 },
        VlcEntry { codeword: 0b0000000000001100, codeword_len: 16, value: 63 },
        VlcEntry { codeword: 0b0000000000000100, codeword_len: 16, value: 64 },
        VlcEntry { codeword: 0b0000000000000110, codeword_len: 16, value: 65 },
        VlcEntry { codeword: 0b0000000000000101, codeword_len: 16, value: 66 },
        VlcEntry { codeword: 0b0000000000001000, codeword_len: 16, value: 67 },
    ]
}

/// coeff_token table for nC in [0, 2) (Table 9-5); value = TotalCoeff * 4 + TrailingOnes.
pub fn coeff_token_vlc0() -> (t: &'static [VlcEntry])
    ensures
        t@ == coeff_token_vlc0_spec(),
{
    let t: &'static [VlcEntry] = &[
        VlcEntry { codeword: 0b1, codeword_len: 1, value: 0 },
        VlcEntry { codeword: 0b000101, codeword_len: 6, value: 4 },
        VlcEntry { codeword: 0b01, codeword_len: 2, value: 5 },
        VlcEntry { codeword: 0b00000111, codeword_len: 8, value: 8 },
        VlcEntry { codeword: 0b000100, codeword_len: 6, value: 9 },
        VlcEntry { codeword: 0b001, codeword_len: 3, value: 10 },
        VlcEntry { codeword: 0b000000111, codeword_len: 9, value: 12 },
        VlcEntry { codeword: 0b00000110, codeword_len: 8, value: 13 },
        VlcEntry { codeword: 0b0000101, codeword_len: 7, value: 14 },
        VlcEntry { codeword: 0b00011, codeword_len: 5, value: 15 },
        VlcEntry { codeword: 0b0000000111, codeword_len: 10, value: 16 },
        VlcEntry { codeword: 0b000000110, codeword_len: 9, value: 17 },
        VlcEntry { codeword: 0b00000101, codeword_len: 8, value: 18 },
        VlcEntry { codeword: 0b000011, codeword_len: 6, value: 19 },
        VlcEntry { codeword: 0b00000000111, codeword_len: 11, value: 20 },
        VlcEntry { codeword: 0b0000000110, codeword_len: 10, value: 21 },
        VlcEntry { codeword: 0b000000101, codeword_len: 9, value: 22 },
        VlcEntry { codeword: 0b0000100, codeword_len: 7, value: 23 },
        VlcEntry { codeword: 0b0000000001111, codeword_len: 13, value: 24 },
        VlcEntry { codeword: 0b00000000110, codeword_len: 11, value: 25 },
        VlcEntry { codeword: 0b0000000101, codeword_len: 10, value: 26 },
        VlcEntry { codeword: 0b00000100, codeword_len: 8, value: 27 },
        VlcEntry { codeword: 0b0000000001011, codeword_len: 13, value: 28 },
        VlcEntry { codeword: 0b0000000001110, codeword_len: 13, value: 29 },
        VlcEntry { codeword: 0b00000000101, codeword_len: 11, value: 30 },
        VlcEntry { codeword: 0b000000100, codeword_len: 9, value: 31 },
        VlcEntry { codeword: 0b0000000001000, codeword_len: 13, value: 32 },
        VlcEntry { codeword: 0b0000000001010, codeword_len: 13, value: 33 },
        VlcEntry { codeword: 0b0000000001101, codeword_len: 13, value: 34 },
        VlcEntry { codeword: 0b0000000100, codeword_len: 10, value: 35 },
        VlcEntry { codeword: 0b00000000001111, codeword_len: 14, value: 36 },
        VlcEntry { codeword: 0b00000000001110, codeword_len: 14, value: 37 },
        VlcEntry { codeword: 0b0000000001001, codeword_len: 13, value: 38 },
        VlcEntry { codeword: 0b00000000100, codeword_len: 11, value: 39 },
        VlcEntry { codeword: 0b00000000001011, codeword_len: 14, value: 40 },
        VlcEntry { codeword: 0b00000000001010, codeword_len: 14, value: 41 },
        VlcEntry { codeword: 0b00000000001101, codeword_len: 14, value: 42 },
        VlcEntry { codeword: 0b0000000001100, codeword_len: 13, value: 43 },
        VlcEntry { codeword: 0b000000000001111, codeword_len: 15, value: 44 },
        VlcEntry { codeword: 0b000000000001110, codeword_len: 15, value: 45 },
        VlcEntry { codeword: 0b00000000001001, codeword_len: 14, value: 46 },
        VlcEntry { codeword: 0b00000000001100, codeword_len: 14, value: 47 },
        VlcEntry { codeword: 0b000000000001011, codeword_len: 15, value: 48 },
        VlcEntry { codeword: 0b000000000001010, codeword_len: 15, value: 49 },
        VlcEntry { codeword: 0b000000000001101, codeword_len: 15, value: 50 },
        VlcEntry { codeword: 0b00000000001000, codeword_len: 14, value: 51 },
        VlcEntry { codeword: 0b0000000000001111, codeword_len: 16, value: 52 },
        VlcEntry { codeword: 0b000000000000001, codeword_len: 15, value: 53 },
        VlcEntry { codeword: 0b000000000001001, codeword_len: 15, value: 54 },
        VlcEntry { codeword: 0b000000000001100, codeword_len: 15, value: 55 },
        VlcEntry { codeword: 0b0000000000001011, codeword_len: 16, value: 56 },
        VlcEntry { codeword: 0b0000000000001110, codeword_len: 16, value: 57 },
        VlcEntry { codeword: 0b0000000000001101, codeword_len: 16, value: 58 },
        VlcEntry { codeword: 0b000000000001000, codeword_len: 15, value: 59 },
        VlcEntry { codeword: 0b0000000000000111, codeword_len: 16, value: 60 },
        VlcEntry { codeword: 0b0000000000001010, codeword_len: 16, value: 61 },
        VlcEntry { codeword: 0b0000000000001001, codeword_len: 16, value: 62 },
        VlcEntry { codeword: 0b0000000000001100, codeword_len: 16, value: 63 },
        VlcEntry { codeword: 0b0000000000000100, codeword_len: 16, value: 64 },
        VlcEntry { codeword: 0b0000000000000110, codeword_len: 16, value: 65 },
        VlcEntry { codeword: 0b0000000000000101, codeword_len: 16, value: 66 },
        VlcEntry { codeword: 0b0000000000001000, codeword_len: 16, value: 67 },
    ];
    assert(t@ =~= coeff_token_vlc0_spec());
    t
}

/// coeff_token rows for nC in [2, 4) (Table 9-5), TotalCoeff <= 2.
pub open spec fn coeff_token_vlc1_spec() -> Seq<VlcEntry> {
    seq![
        VlcEntry { codeword: 0b11, codeword_len: 2, value: 0 },
        VlcEntry { codeword: 0b001011, codeword_len: 6, value: 4 },
        VlcEntry { codeword: 0b10, codeword_len: 2, value: 5 },
        VlcEntry { codeword: 0b001110, codeword_len: 6, value: 8 },
        VlcEntry { codeword: 0b00111, codeword_len: 5, value: 9 },
        VlcEntry { codeword: 0b011, codeword_len: 3, value: 10 },
    ]
}

/// coeff_token rows for nC in [2, 4) (Table 9-5), TotalCoeff <= 2.
pub fn coeff_token_vlc1() -> (t: &'static [VlcEntry])
    ensures
        t@ == coeff_token_vlc1_spec(),
{
    let t: &'static [VlcEntry] = &[
        VlcEntry { codeword: 0b11, codeword_len: 2, value: 0 },
        VlcEntry { codeword: 0b001011, codeword_len: 6, value: 4 },
        VlcEntry { codeword: 0b10, codeword_len: 2, value: 5 },
        VlcEntry { codeword: 0b001110, codeword_len: 6, value: 8 },
        VlcEntry { codeword: 0b00111, codeword_len: 5, value: 9 },
        VlcEntry { codeword: 0b011, codeword_len: 3, value: 10 },
    ];
    assert(t@ =~= coeff_token_vlc1_spec());
    t
}

/// coeff_token rows for nC in [4, 8) (Table 9-5), TotalCoeff <= 2.
pub open spec fn coeff_token_vlc2_spec() -> Seq<VlcEntry> {
    seq![
        VlcEntry { codeword: 0b1111, codeword_len: 4, value: 0 },
        VlcEntry { codeword: 0b001111, codeword_len: 6, value: 4 },
        VlcEntry { codeword: 0b1110, codeword_len: 4, value: 5 },
        VlcEntry { codeword: 0b001011, codeword_len: 6, value: 8 },
        VlcEntry { codeword: 0b01111, codeword_len: 5, value: 9 },
        VlcEntry { codeword: 0b1101, codeword_len: 4, value: 10 },
    ]
}

/// coeff_token rows for nC in [4, 8) (Table 9-5), TotalCoeff <= 2.
pub fn coeff_token_vlc2() -> (t: &'static [VlcEntry])
    ensures
        t@ == coeff_token_vlc2_spec(),
{
    let t: &'static [VlcEntry] = &[
        VlcEntry { codeword: 0b1111, codeword_len: 4, value: 0 },
        VlcEntry { codeword: 0b001111, codeword_len: 6, value: 4 },
        VlcEntry { codeword: 0b1110, codeword_len: 4, value: 5 },
        VlcEntry { codeword: 0b001011, codeword_len: 6, value: 8 },
        VlcEntry { codeword: 0b01111, codeword_len: 5, value: 9 },
        VlcEntry { codeword: 0b1101, codeword_len: 4, value: 10 },
    ];
    assert(t@ =~= coeff_token_vlc2_spec());
    t
}

/// coeff_token table for 4:2:0 chroma DC (Table 9-5).
pub open spec fn coeff_token_chroma_dc_420_spec() -> Seq<VlcEntry> {
    seq![
        VlcEntry { codeword: 0b01, codeword_len: 2, value: 0 },
        VlcEntry { codeword: 0b0001111, codeword_len: 7, value: 4 },
        VlcEntry { codeword: 0b1, codeword_len: 1, value: 5 },
        VlcEntry { codeword: 0b0001110, codeword_len: 7, value: 8 },
        VlcEntry { codeword: 0b0001101, codeword_len: 7, value: 9 },
        VlcEntry { codeword: 0b001, codeword_len: 3, value: 10 },
        VlcEntry { codeword: 0b000000111, codeword_len: 9, value: 12 },
        VlcEntry { codeword: 0b00000110, codeword_len: 8, value: 13 },
        VlcEntry { codeword: 0b0000101, codeword_len: 7, value: 14 },
        VlcEntry { codeword: 0b00011, codeword_len: 5, value: 15 },
        VlcEntry { codeword: 0b00000101, codeword_len: 8, value: 16 },
        VlcEntry { codeword: 0b00000100, codeword_len: 8, value: 17 },
        VlcEntry { codeword: 0b00000011, codeword_len: 8, value: 18 },
        VlcEntry { codeword: 0b000011, codeword_len: 6, value: 19 },
    ]
}

/// coeff_token table for 4:2:0 chroma DC (Table 9-5).
pub fn coeff_token_chroma_dc_420() -> (t: &'static [VlcEntry])
    ensures
        t@ == coeff_token_chroma_dc_420_spec(),
{
    let t: &'static [VlcEntry] = &[
        VlcEntry { codeword: 0b01, codeword_len: 2, value: 0 },
        VlcEntry { codeword: 0b0001111, codeword_len: 7, value: 4 },
        VlcEntry { codeword: 0b1, codeword_len: 1, value: 5 },
        VlcEntry { codeword: 0b0001110, codeword_len: 7, value: 8 },
        VlcEntry { codeword: 0b0001101, codeword_len: 7, value: 9 },
        VlcEntry { codeword: 0b001, codeword_len: 3, value: 10 },
        VlcEntry { codeword: 0b000000111, codeword_len: 9, value: 12 },
        VlcEntry { codeword: 0b00000110, codeword_len: 8, value: 13 },
        VlcEntry { codeword: 0b0000101, codeword_len: 7, value: 14 },
        VlcEntry { codeword: 0b00011, codeword_len: 5, value: 15 },
        VlcEntry { codeword: 0b00000101, codeword_len: 8, value: 16 },
        VlcEntry { codeword: 0b00000100, codeword_len: 8, value: 17 },
        VlcEntry { codeword: 0b00000011, codeword_len: 8, value: 18 },
        VlcEntry { codeword: 0b000011, codeword_len: 6, value: 19 },
    ];
    assert(t@ =~= coeff_token_chroma_dc_420_spec());
    t
}

/// total_zeros table for TotalCoeff = 1 (Table 9-7).
pub open spec fn tz_tc1_spec() -> Seq<VlcEntry> {
    seq![
        VlcEntry { codeword: 0b1, codeword_len: 1, value: 0 },
        VlcEntry { codeword: 0b011, codeword_len: 3, value: 1 },
        VlcEntry { codeword: 0b010, codeword_len: 3, value: 2 },
        VlcEntry { codeword: 0b0011, codeword_len: 4, value: 3 },
        VlcEntry { codeword: 0b0010, codeword_len: 4, value: 4 },
        VlcEntry { codeword: 0b00011, codeword_len: 5, value: 5 },
        VlcEntry { codeword: 0b00010, codeword_len: 5, value: 6 },
        VlcEntry { codeword: 0b000011, codeword_len: 6, value: 7 },
        VlcEntry { codeword: 0b000010, codeword_len: 6, value: 8 },
        VlcEntry { codeword: 0b0000011, codeword_len: 7, value: 9 },
        VlcEntry { codeword: 0b0000010, codeword_len: 7, value: 10 },
        VlcEntry { codeword: 0b00000011, codeword_len: 8, value: 11 },
        VlcEntry { codeword: 0b00000010, codeword_len: 8, value: 12 },
        VlcEntry { codeword: 0b000000011, codeword_len: 9, value: 13 },
        VlcEntry { codeword: 0b000000010, codeword_len: 9, value: 14 },
        VlcEntry { codeword: 0b000000001, codeword_len: 9, value: 15 },
    ]
}

/// total_zeros table for TotalCoeff = 1 (Table 9-7).
pub fn tz_tc1() -> (t: &'static [VlcEntry])
    ensures
        t@ == tz_tc1_spec(),
{
    let t: &'static [VlcEntry] = &[
        VlcEntry { codeword: 0b1, codeword_len: 1, value: 0 },
        VlcEntry { codeword: 0b011, codeword_len: 3, value: 1 },
        VlcEntry { codeword: 0b010, codeword_len: 3, value: 2 },
        VlcEntry { codeword: 0b0011, codeword_len: 4, value: 3 },
        VlcEntry { codeword: 0b0010, codeword_len: 4, value: 4 },
        VlcEntry { codeword: 0b00011, codeword_len: 5, value: 5 },
        VlcEntry { codeword: 0b00010, codeword_len: 5, value: 6 },
        VlcEntry { codeword: 0b000011, codeword_len: 6, value: 7 },
        VlcEntry { codeword: 0b000010, codeword_len: 6, value: 8 },
        VlcEntry { codeword: 0b0000011, codeword_len: 7, value: 9 },
        VlcEntry { codeword: 0b0000010, codeword_len: 7, value: 10 },
        VlcEntry { codeword: 0b00000011, codeword_len: 8, value: 11 },
        VlcEntry { codeword: 0b00000010, codeword_len: 8, value: 12 },
        VlcEntry { codeword: 0b000000011, codeword_len: 9, value: 13 },
        VlcEntry { codeword: 0b000000010, codeword_len: 9, value: 14 },
        VlcEntry { codeword: 0b000000001, codeword_len: 9, value: 15 },
    ];
    assert(t@ =~= tz_tc1_spec());
    t
}

/// total_zeros table for TotalCoeff = 2 (Table 9-7).
pub open spec fn tz_tc2_spec() -> Seq<VlcEntry> {
    seq![
        VlcEntry { codeword: 0b111, codeword_len: 3, value: 0 },
        VlcEntry { codeword: 0b110, codeword_len: 3, value: 1 },
        VlcEntry { codeword: 0b101, codeword_len: 3, value: 2 },
        VlcEntry { codeword: 0b100, codeword_len: 3, value: 3 },
        VlcEntry { codeword: 0b011, codeword_len: 3, value: 4 },
        VlcEntry { codeword: 0b0101, codeword_len: 4, value: 5 },
        VlcEntry { codeword: 0b0100, codeword_len: 4, value: 6 },
        VlcEntry { codeword: 0b0011, codeword_len: 4, value: 7 },
        VlcEntry { codeword: 0b0010, codeword_len: 4, value: 8 },
        VlcEntry { codeword: 0b00011, codeword_len: 5, value: 9 },
        VlcEntry { codeword: 0b00010, codeword_len: 5, value: 10 },
        VlcEntry { codeword: 0b000011, codeword_len: 6, value: 11 },
        VlcEntry { codeword: 0b000010, codeword_len: 6, value: 12 },
        VlcEntry { codeword: 0b000001, codeword_len: 6, value: 13 },
        VlcEntry { codeword: 0b000000, codeword_len: 6, value: 14 },
    ]
}

/// total_zeros table for TotalCoeff = 2 (Table 9-7).
pub fn tz_tc2() -> (t: &'static [VlcEntry])
    ensures
        t@ == tz_tc2_spec(),
{
    let t: &'static [VlcEntry] = &[
        VlcEntry { codeword: 0b111, codeword_len: 3, value: 0 },
        VlcEntry { codeword: 0b110, codeword_len: 3, value: 1 },
        VlcEntry { codeword: 0b101, codeword_len: 3, value: 2 },
        VlcEntry { codeword: 0b100, codeword_len: 3, value: 3 },
        VlcEntry { codeword: 0b011, codeword_len: 3, value: 4 },
        VlcEntry { codeword: 0b0101, codeword_len: 4, value: 5 },
        VlcEntry { codeword: 0b0100, codeword_len: 4, value: 6 },
        VlcEntry { codeword: 0b0011, codeword_len: 4, value: 7 },
        VlcEntry { codeword: 0b0010, codeword_len: 4, value: 8 },
        VlcEntry { codeword: 0b00011, codeword_len: 5, value: 9 },
        VlcEntry { codeword: 0b00010, codeword_len: 5, value: 10 },
        VlcEntry { codeword: 0b000011, codeword_len: 6, value: 11 },
        VlcEntry { codeword: 0b000010, codeword_len: 6, value: 12 },
        VlcEntry { codeword: 0b000001, codeword_len: 6, value: 13 },
        VlcEntry { codeword: 0b000000, codeword_len: 6, value: 14 },
    ];
    assert(t@ =~= tz_tc2_spec());
    t
}

/// total_zeros table for TotalCoeff = 3 (Table 9-7).
pub open spec fn tz_tc3_spec() -> Seq<VlcEntry> {
    seq![
        VlcEntry { codeword: 0b0101, codeword_len: 4, value: 0 },
        VlcEntry { codeword: 0b111, codeword_len: 3, value: 1 },
        VlcEntry { codeword: 0b110, codeword_len: 3, value: 2 },
        VlcEntry { codeword: 0b101, codeword_len: 3, value: 3 },
        VlcEntry { codeword: 0b0100, codeword_len: 4, value: 4 },
        VlcEntry { codeword: 0b0011, codeword_len: 4, value: 5 },
        VlcEntry { codeword: 0b100, codeword_len: 3, value: 6 },
        VlcEntry { codeword: 0b011, codeword_len: 3, value: 7 },
        VlcEntry { codeword: 0b0010, codeword_len: 4, value: 8 },
        VlcEntry { codeword: 0b00011, codeword_len: 5, value: 9 },
        VlcEntry { codeword: 0b00010, codeword_len: 5, value: 10 },
        VlcEntry { codeword: 0b000001, codeword_len: 6, value: 11 },
        VlcEntry { codeword: 0b00001, codeword_len: 5, value: 12 },
        VlcEntry { codeword: 0b000000, codeword_len: 6, value: 13 },
    ]
}

/// total_zeros table for TotalCoeff = 3 (Table 9-7).
pub fn tz_tc3() -> (t: &'static [VlcEntry])
    ensures
        t@ == tz_tc3_spec(),
{
    let t: &'static [VlcEntry] = &[
        VlcEntry { codeword: 0b0101, codeword_len: 4, value: 0 },
        VlcEntry { codeword: 0b111, codeword_len: 3, value: 1 },
        VlcEntry { codeword: 0b110, codeword_len: 3, value: 2 },
        VlcEntry { codeword: 0b101, codeword_len: 3, value: 3 },
        VlcEntry { codeword: 0b0100, codeword_len: 4, value: 4 },
        VlcEntry { codeword: 0b0011, codeword_len: 4, value: 5 },
        VlcEntry { codeword: 0b100, codeword_len: 3, value: 6 },
        VlcEntry { codeword: 0b011, codeword_len: 3, value: 7 },
        VlcEntry { codeword: 0b0010, codeword_len: 4, value: 8 },
        VlcEntry { codeword: 0b00011, codeword_len: 5, value: 9 },
        VlcEntry { codeword: 0b00010, codeword_len: 5, value: 10 },
        VlcEntry { codeword: 0b000001, codeword_len: 6, value: 11 },
        VlcEntry { codeword: 0b00001, codeword_len: 5, value: 12 },
        VlcEntry { codeword: 0b000000, codeword_len: 6, value: 13 },
    ];
    assert(t@ =~= tz_tc3_spec());
    t
}

/// total_zeros table for TotalCoeff = 4 (Table 9-7).
pub open spec fn tz_tc4_spec() -> Seq<VlcEntry> {
    seq![
        VlcEntry { codeword: 0b00011, codeword_len: 5, value: 0 },
        VlcEntry { codeword: 0b111, codeword_len: 3, value: 1 },
        VlcEntry { codeword: 0b0101, codeword_len: 4, value: 2 },
        VlcEntry { codeword: 0b0100, codeword_len: 4, value: 3 },
        VlcEntry { codeword: 0b110, codeword_len: 3, value: 4 },
        VlcEntry { codeword: 0b101, codeword_len: 3, value: 5 },
        VlcEntry { codeword: 0b100, codeword_len: 3, value: 6 },
        VlcEntry { codeword: 0b0011, codeword_len: 4, value: 7 },
        VlcEntry { codeword: 0b011, codeword_len: 3, value: 8 },
        VlcEntry { codeword: 0b0010, codeword_len: 4, value: 9 },
        VlcEntry { codeword: 0b00010, codeword_len: 5, value: 10 },
        VlcEntry { codeword: 0b00001, codeword_len: 5, value: 11 },
        VlcEntry { codeword: 0b00000, codeword_len: 5, value: 12 },
    ]
}

/// total_zeros table for TotalCoeff = 4 (Table 9-7).
pub fn tz_tc4() -> (t: &'static [VlcEntry])
    ensures
        t@ == tz_tc4_spec(),
{
    let t: &'static [VlcEntry] = &[
        VlcEntry { codeword: 0b00011, codeword_len: 5, value: 0 },
        VlcEntry { codeword: 0b111, codeword_len: 3, value: 1 },
        VlcEntry { codeword: 0b0101, codeword_len: 4, value: 2 },
        VlcEntry { codeword: 0b0100, codeword_len: 4, value: 3 },
        VlcEntry { codeword: 0b110, codeword_len: 3, value: 4 },
        VlcEntry { codeword: 0b101, codeword_len: 3, value: 5 },
        VlcEntry { codeword: 0b100, codeword_len: 3, value: 6 },
        VlcEntry { codeword: 0b0011, codeword_len: 4, value: 7 },
        VlcEntry { codeword: 0b011, codeword_len: 3, value: 8 },
        VlcEntry { codeword: 0b0010, codeword_len: 4, value: 9 },
        VlcEntry { codeword: 0b00010, codeword_len: 5, value: 10 },
        VlcEntry { codeword: 0b00001, codeword_len: 5, value: 11 },
        VlcEntry { codeword: 0b00000, codeword_len: 5, value: 12 },
    ];
    assert(t@ =~= tz_tc4_spec());
    t
}

/// total_zeros table for TotalCoeff = 5 (Table 9-7).
pub open spec fn tz_tc5_spec() -> Seq<VlcEntry> {
    seq![
        VlcEntry { codeword: 0b0101, codeword_len: 4, value: 0 },
        VlcEntry { codeword: 0b0100, codeword_len: 4, value: 1 },
        VlcEntry { codeword: 0b0011, codeword_len: 4, value: 2 },
        VlcEntry { codeword: 0b111, codeword_len: 3, value: 3 },
        VlcEntry { codeword: 0b110, codeword_len: 3, value: 4 },
        VlcEntry { codeword: 0b101, codeword_len: 3, value: 5 },
        VlcEntry { codeword: 0b100, codeword_len: 3, value: 6 },
        VlcEntry { codeword: 0b011, codeword_len: 3, value: 7 },
        VlcEntry { codeword: 0b0010, codeword_len: 4, value: 8 },
        VlcEntry { codeword: 0b00001, codeword_len: 5, value: 9 },
        VlcEntry { codeword: 0b0001, codeword_len: 4, value: 10 },
        VlcEntry { codeword: 0b00000, codeword_len: 5, value: 11 },
    ]
}

/// total_zeros table for TotalCoeff = 5 (Table 9-7).
pub fn tz_tc5() -> (t: &'static [VlcEntry])
    ensures
        t@ == tz_tc5_spec(),
{
    let t: &'static [VlcEntry] = &[
        VlcEntry { codeword: 0b0101, codeword_len: 4, value: 0 },
        VlcEntry { codeword: 0b0100, codeword_len: 4, value: 1 },
        VlcEntry { codeword: 0b0011, codeword_len: 4, value: 2 },
        VlcEntry { codeword: 0b111, codeword_len: 3, value: 3 },
        VlcEntry { codeword: 0b110, codeword_len: 3, value: 4 },
        VlcEntry { codeword: 0b101, codeword_len: 3, value: 5 },
        VlcEntry { codeword: 0b100, codeword_len: 3, value: 6 },
        VlcEntry { codeword: 0b011, codeword_len: 3, value: 7 },
        VlcEntry { codeword: 0b0010, codeword_len: 4, value: 8 },
        VlcEntry { codeword: 0b00001, codeword_len: 5, value: 9 },
        VlcEntry { codeword: 0b0001, codeword_len: 4, value: 10 },
        VlcEntry { codeword: 0b00000, codeword_len: 5, value: 11 },
    ];
    assert(t@ =~= tz_tc5_spec());
    t
}

/// total_zeros table for TotalCoeff = 6 (Table 9-7).
pub open spec fn tz_tc6_spec() -> Seq<VlcEntry> {
    seq![
        VlcEntry { codeword: 0b000001, codeword_len: 6, value: 0 },
        VlcEntry { codeword: 0b00001, codeword_len: 5, value: 1 },
        VlcEntry { codeword: 0b111, codeword_len: 3, value: 2 },
        VlcEntry { codeword: 0b110, codeword_len: 3, value: 3 },
        VlcEntry { codeword: 0b101, codeword_len: 3, value: 4 },
        VlcEntry { codeword: 0b100, codeword_len: 3, value: 5 },
        VlcEntry { codeword: 0b011, codeword_len: 3, value: 6 },
        VlcEntry { codeword: 0b010, codeword_len: 3, value: 7 },
        VlcEntry { codeword: 0b0001, codeword_len: 4, value: 8 },
        VlcEntry { codeword: 0b001, codeword_len: 3, value: 9 },
        VlcEntry { codeword: 0b000000, codeword_len: 6, value: 10 },
    ]
}

/// total_zeros table for TotalCoeff = 6 (Table 9-7).
pub fn tz_tc6() -> (t: &'static [VlcEntry])
    ensures
        t@ == tz_tc6_spec(),
{
    let t: &'static [VlcEntry] = &[
        VlcEntry { codeword: 0b000001, codeword_len: 6, value: 0 },
        VlcEntry { codeword: 0b00001, codeword_len: 5, value: 1 },
        VlcEntry { codeword: 0b111, codeword_len: 3, value: 2 },
        VlcEntry { codeword: 0b110, codeword_len: 3, value: 3 },
        VlcEntry { codeword: 0b101, codeword_len: 3, value: 4 },
        VlcEntry { codeword: 0b100, codeword_len: 3, value: 5 },
        VlcEntry { codeword: 0b011, codeword_len: 3, value: 6 },
        VlcEntry { codeword: 0b010, codeword_len: 3, value: 7 },
        VlcEntry { codeword: 0b0001, codeword_len: 4, value: 8 },
        VlcEntry { codeword: 0b001, codeword_len: 3, value: 9 },
        VlcEntry { codeword: 0b000000, codeword_len: 6, value: 10 },
    ];
    assert(t@ =~= tz_tc6_spec());
    t
}

/// total_zeros table for TotalCoeff = 7 (Table 9-7).
pub open spec fn tz_tc7_spec() -> Seq<VlcEntry> {
    seq![
        VlcEntry { codeword: 0b000001, codeword_len: 6, value: 0 },
        VlcEntry { codeword: 0b00001, codeword_len: 5, value: 1 },
        VlcEntry { codeword: 0b101, codeword_len: 3, value: 2 },
        VlcEntry { codeword: 0b100, codeword_len: 3, value: 3 },
        VlcEntry { codeword: 0b011, codeword_len: 3, value: 4 },
        VlcEntry { codeword: 0b11, codeword_len: 2, value: 5 },
        VlcEntry { codeword: 0b010, codeword_len: 3, value: 6 },
        VlcEntry { codeword: 0b0001, codeword_len: 4, value: 7 },
        VlcEntry { codeword: 0b001, codeword_len: 3, value: 8 },
        VlcEntry { codeword: 0b000000, codeword_len: 6, value: 9 },
    ]
}

/// total_zeros table for TotalCoeff = 7 (Table 9-7).
pub fn tz_tc7() -> (t: &'static [VlcEntry])
    ensures
        t@ == tz_tc7_spec(),
{
    let t: &'static [VlcEntry] = &[
        VlcEntry { codeword: 0b000001, codeword_len: 6, value: 0 },
        VlcEntry { codeword: 0b00001, codeword_len: 5, value: 1 },
        VlcEntry { codeword: 0b101, codeword_len: 3, value: 2 },
        VlcEntry { codeword: 0b100, codeword_len: 3, value: 3 },
        VlcEntry { codeword: 0b011, codeword_len: 3, value: 4 },
        VlcEntry { codeword: 0b11, codeword_len: 2, value: 5 },
        VlcEntry { codeword: 0b010, codeword_len: 3, value: 6 },
        VlcEntry { codeword: 0b0001, codeword_len: 4, value: 7 },
        VlcEntry { codeword: 0b001, codeword_len: 3, value: 8 },
        VlcEntry { codeword: 0b000000, codeword_len: 6, value: 9 },
    ];
    assert(t@ =~= tz_tc7_spec());
    t
}

/// total_zeros table for TotalCoeff = 8 (Table 9-7).
pub open spec fn tz_tc8_spec() -> Seq<VlcEntry> {
    seq![
        VlcEntry { codeword: 0b000001, codeword_len: 6, value: 0 },
        VlcEntry { codeword: 0b0001, codeword_len: 4, value: 1 },
        VlcEntry { codeword: 0b00001, codeword_len: 5, value: 2 },
        VlcEntry { codeword: 0b011, codeword_len: 3, value: 3 },
        VlcEntry { codeword: 0b11, codeword_len: 2, value: 4 },
        VlcEntry { codeword: 0b10, codeword_len: 2, value: 5 },
        VlcEntry { codeword: 0b010, codeword_len: 3, value: 6 },
        VlcEntry { codeword: 0b001, codeword_len: 3, value: 7 },
        VlcEntry { codeword: 0b000000, codeword_len: 6, value: 8 },
    ]
}

/// total_zeros table for TotalCoeff = 8 (Table 9-7).
pub fn tz_tc8() -> (t: &'static [VlcEntry])
    ensures
        t@ == tz_tc8_spec(),
{
    let t: &'static [VlcEntry] = &[
        VlcEntry { codeword: 0b000001, codeword_len: 6, value: 0 },
        VlcEntry { codeword: 0b0001, codeword_len: 4, value: 1 },
        VlcEntry { codeword: 0b00001, codeword_len: 5, value: 2 },
        VlcEntry { codeword: 0b011, codeword_len: 3, value: 3 },
        VlcEntry { codeword: 0b11, codeword_len: 2, value: 4 },
        VlcEntry { codeword: 0b10, codeword_len: 2, value: 5 },
        VlcEntry { codeword: 0b010, codeword_len: 3, value: 6 },
        VlcEntry { codeword: 0b001, codeword_len: 3, value: 7 },
        VlcEntry { codeword: 0b000000, codeword_len: 6, value: 8 },
    ];
    assert(t@ =~= tz_tc8_spec());
    t
}

/// total_zeros table for TotalCoeff = 9 (Table 9-7).
pub open spec fn tz_tc9_spec() -> Seq<VlcEntry> {
    seq![
        VlcEntry { codeword: 0b000001, codeword_len: 6, value: 0 },
        VlcEntry { codeword: 0b000000, codeword_len: 6, value: 1 },
        VlcEntry { codeword: 0b0001, codeword_len: 4, value: 2 },
        VlcEntry { codeword: 0b11, codeword_len: 2, value: 3 },
        VlcEntry { codeword: 0b10, codeword_len: 2, value: 4 },
        VlcEntry { codeword: 0b001, codeword_len: 3, value: 5 },
        VlcEntry { codeword: 0b01, codeword_len: 2, value: 6 },
        VlcEntry { codeword: 0b00001, codeword_len: 5, value: 7 },
    ]
}

/// total_zeros table for TotalCoeff = 9 (Table 9-7).
pub fn tz_tc9() -> (t: &'static [VlcEntry])
    ensures
        t@ == tz_tc9_spec(),
{
    let t: &'static [VlcEntry] = &[
        VlcEntry { codeword: 0b000001, codeword_len: 6, value: 0 },
        VlcEntry { codeword: 0b000000, codeword_len: 6, value: 1 },
        VlcEntry { codeword: 0b0001, codeword_len: 4, value: 2 },
        VlcEntry { codeword: 0b11, codeword_len: 2, value: 3 },
        VlcEntry { codeword: 0b10, codeword_len: 2, value: 4 },
        VlcEntry { codeword: 0b001, codeword_len: 3, value: 5 },
        VlcEntry { codeword: 0b01, codeword_len: 2, value: 6 },
        VlcEntry { codeword: 0b00001, codeword_len: 5, value: 7 },
    ];
    assert(t@ =~= tz_tc9_spec());
    t
}

/// total_zeros table for TotalCoeff = 10 (Table 9-7).
pub open spec fn tz_tc10_spec() -> Seq<VlcEntry> {
    seq![
        VlcEntry { codeword: 0b00001, codeword_len: 5, value: 0 },
        VlcEntry { codeword: 0b00000, codeword_len: 5, value: 1 },
        VlcEntry { codeword: 0b001, codeword_len: 3, value: 2 },
        VlcEntry { codeword: 0b11, codeword_len: 2, value: 3 },
        VlcEntry { codeword: 0b10, codeword_len: 2, value: 4 },
        VlcEntry { codeword: 0b01, codeword_len: 2, value: 5 },
        VlcEntry { codeword: 0b0001, codeword_len: 4, value: 6 },
    ]
}

/// total_zeros table for TotalCoeff = 10 (Table 9-7).
pub fn tz_tc10() -> (t: &'static [VlcEntry])
    ensures
        t@ == tz_tc10_spec(),
{
    let t: &'static [VlcEntry] = &[
        VlcEntry { codeword: 0b00001, codeword_len: 5, value: 0 },
        VlcEntry { codeword: 0b00000, codeword_len: 5, value: 1 },
        VlcEntry { codeword: 0b001, codeword_len: 3, value: 2 },
        VlcEntry { codeword: 0b11, codeword_len: 2, value: 3 },
        VlcEntry { codeword: 0b10, codeword_len: 2, value: 4 },
        VlcEntry { codeword: 0b01, codeword_len: 2, value: 5 },
        VlcEntry { codeword: 0b0001, codeword_len: 4, value: 6 },
    ];
    assert(t@ =~= tz_tc10_spec());
    t
}

/// total_zeros table for TotalCoeff = 11 (Table 9-7).
pub open spec fn tz_tc11_spec() -> Seq<VlcEntry> {
    seq![
        VlcEntry { codeword: 0b0000, codeword_len: 4, value: 0 },
        VlcEntry { codeword: 0b0001, codeword_len: 4, value: 1 },
        VlcEntry { codeword: 0b001, codeword_len: 3, value: 2 },
        VlcEntry { codeword: 0b010, codeword_len: 3, value: 3 },
        VlcEntry { codeword: 0b1, codeword_len: 1, value: 4 },
        VlcEntry { codeword: 0b011, codeword_len: 3, value: 5 },
    ]
}

/// total_zeros table for TotalCoeff = 11 (Table 9-7).
pub fn tz_tc11() -> (t: &'static [VlcEntry])
    ensures
        t@ == tz_tc11_spec(),
{
    let t: &'static [VlcEntry] = &[
        VlcEntry { codeword: 0b0000, codeword_len: 4, value: 0 },
        VlcEntry { codeword: 0b0001, codeword_len: 4, value: 1 },
        VlcEntry { codeword: 0b001, codeword_len: 3, value: 2 },
        VlcEntry { codeword: 0b010, codeword_len: 3, value: 3 },
        VlcEntry { codeword: 0b1, codeword_len: 1, value: 4 },
        VlcEntry { codeword: 0b011, codeword_len: 3, value: 5 },
    ];
    assert(t@ =~= tz_tc11_spec());
    t
}

/// total_zeros table for TotalCoeff = 12 (Table 9-7).
pub open spec fn tz_tc12_spec() -> Seq<VlcEntry> {
    seq![
        VlcEntry { codeword: 0b0000, codeword_len: 4, value: 0 },
        VlcEntry { codeword: 0b0001, codeword_len: 4, value: 1 },
        VlcEntry { codeword: 0b01, codeword_len: 2, value: 2 },
        VlcEntry { codeword: 0b1, codeword_len: 1, value: 3 },
        VlcEntry { codeword: 0b001, codeword_len: 3, value: 4 },
    ]
}

/// total_zeros table for TotalCoeff = 12 (Table 9-7).
pub fn tz_tc12() -> (t: &'static [VlcEntry])
    ensures
        t@ == tz_tc12_spec(),
{
    let t: &'static [VlcEntry] = &[
        VlcEntry { codeword: 0b0000, codeword_len: 4, value: 0 },
        VlcEntry { codeword: 0b0001, codeword_len: 4, value: 1 },
        VlcEntry { codeword: 0b01, codeword_len: 2, value: 2 },
        VlcEntry { codeword: 0b1, codeword_len: 1, value: 3 },
        VlcEntry { codeword: 0b001, codeword_len: 3, value: 4 },
    ];
    assert(t@ =~= tz_tc12_spec());
    t
}

/// total_zeros table for TotalCoeff = 13 (Table 9-7).
pub open spec fn tz_tc13_spec() -> Seq<VlcEntry> {
    seq![
        VlcEntry { codeword: 0b000, codeword_len: 3, value: 0 },
        VlcEntry { codeword: 0b001, codeword_len: 3, value: 1 },
        VlcEntry { codeword: 0b1, codeword_len: 1, value: 2 },
        VlcEntry { codeword: 0b01, codeword_len: 2, value: 3 },
    ]
}

/// total_zeros table for TotalCoeff = 13 (Table 9-7).
pub fn tz_tc13() -> (t: &'static [VlcEntry])
    ensures
        t@ == tz_tc13_spec(),
{
    let t: &'static [VlcEntry] = &[
        VlcEntry { codeword: 0b000, codeword_len: 3, value: 0 },
        VlcEntry { codeword: 0b001, codeword_len: 3, value: 1 },
        VlcEntry { codeword: 0b1, codeword_len: 1, value: 2 },
        VlcEntry { codeword: 0b01, codeword_len: 2, value: 3 },
    ];
    assert(t@ =~= tz_tc13_spec());
    t
}

/// total_zeros table for TotalCoeff = 14 (Table 9-7).
pub open spec fn tz_tc14_spec() -> Seq<VlcEntry> {
    seq![
        VlcEntry { codeword: 0b00, codeword_len: 2, value: 0 },
        VlcEntry { codeword: 0b01, codeword_len: 2, value: 1 },
        VlcEntry { codeword: 0b1, codeword_len: 1, value: 2 },
    ]
}

/// total_zeros table for TotalCoeff = 14 (Table 9-7).
pub fn tz_tc14() -> (t: &'static [VlcEntry])
    ensures
        t@ == tz_tc14_spec(),
{
    let t: &'static [VlcEntry] = &[
        VlcEntry { codeword: 0b00, codeword_len: 2, value: 0 },
        VlcEntry { codeword: 0b01, codeword_len: 2, value: 1 },
        VlcEntry { codeword: 0b1, codeword_len: 1, value: 2 },
    ];
    assert(t@ =~= tz_tc14_spec());
    t
}

/// total_zeros table for TotalCoeff = 15 (Table 9-7).
pub open spec fn tz_tc15_spec() -> Seq<VlcEntry> {
    seq![
        VlcEntry { codeword: 0b0, codeword_len: 1, value: 0 },
        VlcEntry { codeword: 0b1, codeword_len: 1, value: 1 },
    ]
}

/// total_zeros table for TotalCoeff = 15 (Table 9-7).
pub fn tz_tc15() -> (t: &'static [VlcEntry])
    ensures
        t@ == tz_tc15_spec(),
{
    let t: &'static [VlcEntry] = &[
        VlcEntry { codeword: 0b0, codeword_len: 1, value: 0 },
        VlcEntry { codeword: 0b1, codeword_len: 1, value: 1 },
    ];
    assert(t@ =~= tz_tc15_spec());
    t
}

/// run_before table for zerosLeft = 1 (Table 9-10).
pub open spec fn rb_zl1_spec() -> Seq<VlcEntry> {
    seq![
        VlcEntry { codeword: 0b1, codeword_len: 1, value: 0 },
        VlcEntry { codeword: 0b0, codeword_len: 1, value: 1 },
    ]
}

/// run_before table for zerosLeft = 1 (Table 9-10).
pub fn rb_zl1() -> (t: &'static [VlcEntry])
    ensures
        t@ == rb_zl1_spec(),
{
    let t: &'static [VlcEntry] = &[
        VlcEntry { codeword: 0b1, codeword_len: 1, value: 0 },
        VlcEntry { codeword: 0b0, codeword_len: 1, value: 1 },
    ];
    assert(t@ =~= rb_zl1_spec());
    t
}

/// run_before table for zerosLeft = 2 (Table 9-10).
pub open spec fn rb_zl2_spec() -> Seq<VlcEntry> {
    seq![
        VlcEntry { codeword: 0b1, codeword_len: 1, value: 0 },
        VlcEntry { codeword: 0b01, codeword_len: 2, value: 1 },
        VlcEntry { codeword: 0b00, codeword_len: 2, value: 2 },
    ]
}

/// run_before table for zerosLeft = 2 (Table 9-10).
pub fn rb_zl2() -> (t: &'static [VlcEntry])
    ensures
        t@ == rb_zl2_spec(),
{
    let t: &'static [VlcEntry] = &[
        VlcEntry { codeword: 0b1, codeword_len: 1, value: 0 },
        VlcEntry { codeword: 0b01, codeword_len: 2, value: 1 },
        VlcEntry { codeword: 0b00, codeword_len: 2, value: 2 },
    ];
    assert(t@ =~= rb_zl2_spec());
    t
}

/// run_before table for zerosLeft = 3 (Table 9-10).
pub open spec fn rb_zl3_spec() -> Seq<VlcEntry> {
    seq![
        VlcEntry { codeword: 0b11, codeword_len: 2, value: 0 },
        VlcEntry { codeword: 0b10, codeword_len: 2, value: 1 },
        VlcEntry { codeword: 0b01, codeword_len: 2, value: 2 },
        VlcEntry { codeword: 0b00, codeword_len: 2, value: 3 },
    ]
}

/// run_before table for zerosLeft = 3 (Table 9-10).
pub fn rb_zl3() -> (t: &'static [VlcEntry])
    ensures
        t@ == rb_zl3_spec(),
{
    let t: &'static [VlcEntry] = &[
        VlcEntry { codeword: 0b11, codeword_len: 2, value: 0 },
        VlcEntry { codeword: 0b10, codeword_len: 2, value: 1 },
        VlcEntry { codeword: 0b01, codeword_len: 2, value: 2 },
        VlcEntry { codeword: 0b00, codeword_len: 2, value: 3 },
    ];
    assert(t@ =~= rb_zl3_spec());
    t
}

/// run_before table for zerosLeft = 4 (Table 9-10).
pub open spec fn rb_zl4_spec() -> Seq<VlcEntry> {
    seq![
        VlcEntry { codeword: 0b11, codeword_len: 2, value: 0 },
        VlcEntry { codeword: 0b10, codeword_len: 2, value: 1 },
        VlcEntry { codeword: 0b01, codeword_len: 2, value: 2 },
        VlcEntry { codeword: 0b001, codeword_len: 3, value: 3 },
        VlcEntry { codeword: 0b000, codeword_len: 3, value: 4 },
    ]
}

/// run_before table for zerosLeft = 4 (Table 9-10).
pub fn rb_zl4() -> (t: &'static [VlcEntry])
    ensures
        t@ == rb_zl4_spec(),
{
    let t: &'static [VlcEntry] = &[
        VlcEntry { codeword: 0b11, codeword_len: 2, value: 0 },
        VlcEntry { codeword: 0b10, codeword_len: 2, value: 1 },
        VlcEntry { codeword: 0b01, codeword_len: 2, value: 2 },
        VlcEntry { codeword: 0b001, codeword_len: 3, value: 3 },
        VlcEntry { codeword: 0b000, codeword_len: 3, value: 4 },
    ];
    assert(t@ =~= rb_zl4_spec());
    t
}

/// run_before table for zerosLeft = 5 (Table 9-10).
pub open spec fn rb_zl5_spec() -> Seq<VlcEntry> {
    seq![
        VlcEntry { codeword: 0b11, codeword_len: 2, value: 0 },
        VlcEntry { codeword: 0b10, codeword_len: 2, value: 1 },
        VlcEntry { codeword: 0b011, codeword_len: 3, value: 2 },
        VlcEntry { codeword: 0b010, codeword_len: 3, value: 3 },
        VlcEntry { codeword: 0b001, codeword_len: 3, value: 4 },
        VlcEntry { codeword: 0b000, codeword_len: 3, value: 5 },
    ]
}

/// run_before table for zerosLeft = 5 (Table 9-10).
pub fn rb_zl5() -> (t: &'static [VlcEntry])
    ensures
        t@ == rb_zl5_spec(),
{
    let t: &'static [VlcEntry] = &[
        VlcEntry { codeword: 0b11, codeword_len: 2, value: 0 },
        VlcEntry { codeword: 0b10, codeword_len: 2, value: 1 },
        VlcEntry { codeword: 0b011, codeword_len: 3, value: 2 },
        VlcEntry { codeword: 0b010, codeword_len: 3, value: 3 },
        VlcEntry { codeword: 0b001, codeword_len: 3, value: 4 },
        VlcEntry { codeword: 0b000, codeword_len: 3, value: 5 },
    ];
    assert(t@ =~= rb_zl5_spec());
    t
}

/// run_before table for zerosLeft = 6 (Table 9-10).
pub open spec fn rb_zl6_spec() -> Seq<VlcEntry> {
    seq![
        VlcEntry { codeword: 0b11, codeword_len: 2, value: 0 },
        VlcEntry { codeword: 0b000, codeword_len: 3, value: 1 },
        VlcEntry { codeword: 0b001, codeword_len: 3, value: 2 },
        VlcEntry { codeword: 0b011, codeword_len: 3, value: 3 },
        VlcEntry { codeword: 0b010, codeword_len: 3, value: 4 },
        VlcEntry { codeword: 0b101, codeword_len: 3, value: 5 },
        VlcEntry { codeword: 0b100, codeword_len: 3, value: 6 },
    ]
}

/// run_before table for zerosLeft = 6 (Table 9-10).
pub fn rb_zl6() -> (t: &'static [VlcEntry])
    ensures
        t@ == rb_zl6_spec(),
{
    let t: &'static [VlcEntry] = &[
        VlcEntry { codeword: 0b11, codeword_len: 2, value: 0 },
        VlcEntry { codeword: 0b000, codeword_len: 3, value: 1 },
        VlcEntry { codeword: 0b001, codeword_len: 3, value: 2 },
        VlcEntry { codeword: 0b011, codeword_len: 3, value: 3 },
        VlcEntry { codeword: 0b010, codeword_len: 3, value: 4 },
        VlcEntry { codeword: 0b101, codeword_len: 3, value: 5 },
        VlcEntry { codeword: 0b100, codeword_len: 3, value: 6 },
    ];
    assert(t@ =~= rb_zl6_spec());
    t
}

/// run_before table for zerosLeft >= 7 (Table 9-10).
pub open spec fn rb_zl_ge7_spec() -> Seq<VlcEntry> {
    seq![
        VlcEntry { codeword: 0b111, codeword_len: 3, value: 0 },
        VlcEntry { codeword: 0b110, codeword_len: 3, value: 1 },
        VlcEntry { codeword: 0b101, codeword_len: 3, value: 2 },
        VlcEntry { codeword: 0b100, codeword_len: 3, value: 3 },
        VlcEntry { codeword: 0b011, codeword_len: 3, value: 4 },
        VlcEntry { codeword: 0b010, codeword_len: 3, value: 5 },
        VlcEntry { codeword: 0b001, codeword_len: 3, value: 6 },
        VlcEntry { codeword: 0b0001, codeword_len: 4, value: 7 },
        VlcEntry { codeword: 0b00001, codeword_len: 5, value: 8 },
        VlcEntry { codeword: 0b000001, codeword_len: 6, value: 9 },
        VlcEntry { codeword: 0b0000001, codeword_len: 7, value: 10 },
        VlcEntry { codeword: 0b00000001, codeword_len: 8, value: 11 },
        VlcEntry { codeword: 0b000000001, codeword_len: 9, value: 12 },
        VlcEntry { codeword: 0b0000000001, codeword_len: 10, value: 13 },
        VlcEntry { codeword: 0b00000000001, codeword_len: 11, value: 14 },
    ]
}

/// run_before table for zerosLeft >= 7 (Table 9-10).
pub fn rb_zl_ge7() -> (t: &'static [VlcEntry])
    ensures
        t@ == rb_zl_ge7_spec(),
{
    let t: &'static [VlcEntry] = &[
        VlcEntry { codeword: 0b111, codeword_len: 3, value: 0 },
        VlcEntry { codeword: 0b110, codeword_len: 3, value: 1 },
        VlcEntry { codeword: 0b101, codeword_len: 3, value: 2 },
        VlcEntry { codeword: 0b100, codeword_len: 3, value: 3 },
        VlcEntry { codeword: 0b011, codeword_len: 3, value: 4 },
        VlcEntry { codeword: 0b010, codeword_len: 3, value: 5 },
        VlcEntry { codeword: 0b001, codeword_len: 3, value: 6 },
        VlcEntry { codeword: 0b0001, codeword_len: 4, value: 7 },
        VlcEntry { codeword: 0b00001, codeword_len: 5, value: 8 },
        VlcEntry { codeword: 0b000001, codeword_len: 6, value: 9 },
        VlcEntry { codeword: 0b0000001, codeword_len: 7, value: 10 },
        VlcEntry { codeword: 0b00000001, codeword_len: 8, value: 11 },
        VlcEntry { codeword: 0b000000001, codeword_len: 9, value: 12 },
        VlcEntry { codeword: 0b0000000001, codeword_len: 10, value: 13 },
        VlcEntry { codeword: 0b00000000001, codeword_len: 11, value: 14 },
    ];
    assert(t@ =~= rb_zl_ge7_spec());
    t
}

/// Every coeff_token table value is a TotalCoeff of at most 16 with at
/// most 3 trailing ones.
pub proof fn lemma_coeff_token_values()
    ensures
        values_at_most(coeff_token_vlc0_spec(), 0, 67),
        values_at_most(coeff_token_vlc1_spec(), 0, 67),
        values_at_most(coeff_token_vlc2_spec(), 0, 67),
        values_at_most(coeff_token_chroma_dc_420_spec(), 0, 67),
{
    reveal_with_fuel(values_at_most, 70);
}

/// No coeff_token table value has more trailing ones than coefficients.
pub proof fn lemma_coeff_token_values_ok()
    ensures
        ct_values_ok(coeff_token_vlc0_spec(), 0),
        ct_values_ok(coeff_token_vlc1_spec(), 0),
        ct_values_ok(coeff_token_vlc2_spec(), 0),
        ct_values_ok(coeff_token_chroma_dc_420_spec(), 0),
{
    reveal_with_fuel(ct_values_ok, 70);
}

/// The total_zeros table for TotalCoeff `tc` in 1..=15.
pub open spec fn tz_table_spec(tc: int) -> Seq<VlcEntry> {
    if tc == 1 { tz_tc1_spec() }
    else if tc == 2 { tz_tc2_spec() }
    else if tc == 3 { tz_tc3_spec() }
    else if tc == 4 { tz_tc4_spec() }
    else if tc == 5 { tz_tc5_spec() }
    else if tc == 6 { tz_tc6_spec() }
    else if tc == 7 { tz_tc7_spec() }
    else if tc == 8 { tz_tc8_spec() }
    else if tc == 9 { tz_tc9_spec() }
    else if tc == 10 { tz_tc10_spec() }
    else if tc == 11 { tz_tc11_spec() }
    else if tc == 12 { tz_tc12_spec() }
    else if tc == 13 { tz_tc13_spec() }
    else if tc == 14 { tz_tc14_spec() }
    else { tz_tc15_spec() }
}

/// The run_before table for zerosLeft `zl` in 1..=14.
pub open spec fn rb_table_spec(zl: int) -> Seq<VlcEntry> {
    if zl == 1 { rb_zl1_spec() }
    else if zl == 2 { rb_zl2_spec() }
    else if zl == 3 { rb_zl3_spec() }
    else if zl == 4 { rb_zl4_spec() }
    else if zl == 5 { rb_zl5_spec() }
    else if zl == 6 { rb_zl6_spec() }
    else { rb_zl_ge7_spec() }
}

/// With TotalCoeff `tc`, total_zeros never exceeds `16 - tc`, so the
/// coefficients and the zeros between them fit in the 16 positions.
pub proof fn lemma_total_zeros_values(tc: int)
    requires
        1 <= tc <= 15,
    ensures
        values_at_most(tz_table_spec(tc), 0, 16 - tc),
{
    reveal_with_fuel(values_at_most, 17);
}

} // verus!
