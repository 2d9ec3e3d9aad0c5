//! Macroblock-layer syntax for I-slices: mb_type (Table 7-11), the
//! Intra_4×4 prediction-mode records, the chroma prediction mode, the
//! coded block pattern (Table 9-4) and mb_qp_delta.

use vstd::prelude::*;

use crate::bitreader::{bit_spec, bits_spec, se_spec, ue_spec, BitReader};
use crate::cavlc::{decode_residual_block_4x4_with_tc, residual_spec, CoeffTokenVariant};
use crate::intra::{intra4x4_mode_of, intra16x16_mode_of, intra_chroma_mode_of, Intra16x16Mode, Intra4x4Mode, IntraChromaMode};
use crate::DecodeError;

verus! {

// ─────────────────────────────────────────────────────────────────────
// mb_type (Table 7-11)
// ─────────────────────────────────────────────────────────────────────

/// Macroblock type of an I-slice macroblock.
#[derive(Clone, Copy, Debug, PartialEq, Eq)]
pub enum MbType {
    /// I_NxN: sixteen 4×4 luma blocks, each with its own prediction mode
    /// (mb_type 0).
    INxN,
    /// I_16x16 with its luma prediction mode and coded block pattern
    /// (mb_type 1..=24): cbp_luma in {0, 1}, cbp_chroma in {0, 1, 2}.
    I16x16 { pred_mode: Intra16x16Mode, cbp_luma: u8, cbp_chroma: u8 },
    /// I_PCM: raw samples (mb_type 25).
    IPcm,
}

/// The macroblock type that `mb_type` value `idx` stands for.
pub open spec fn mb_type_of(idx: u32) -> Result<MbType, DecodeError> {
    if idx == 0 {
        Ok(MbType::INxN)
    } else if 1 <= idx <= 24 {
        let n = idx - 1;
        Ok(MbType::I16x16 {
            pred_mode: intra16x16_mode_of(n / 6).unwrap(),
            cbp_luma: ((n / 3) % 2) as u8,
            cbp_chroma: (n % 3) as u8,
        })
    } else if idx == 25 {
        Ok(MbType::IPcm)
    } else {
        Err(DecodeError::OutOfScope("mb_type out of I-slice range"))
    }
}

impl MbType {
    /// Decode an I-slice `mb_type` value (0..=25).
    pub fn from_index(idx: u32) -> (res: Result<Self, DecodeError>)
        ensures
            res == mb_type_of(idx),
    {
        if idx == 0 {
            Ok(MbType::INxN)
        } else if idx <= 24 {
            let n = idx - 1;
            let pm_idx = (n / 6) as u8;
            let cbp_luma = ((n / 3) % 2) as u8;
            let cbp_chroma = (n % 3) as u8;
            let pred_mode = match Intra16x16Mode::from_index(pm_idx) {
                Ok(m) => m,
                Err(e) => { return Err(e); },
            };
            Ok(MbType::I16x16 { pred_mode, cbp_luma, cbp_chroma })
        } else if idx == 25 {
            Ok(MbType::IPcm)
        } else {
            Err(DecodeError::OutOfScope("mb_type out of I-slice range"))
        }
    }
}

// ─────────────────────────────────────────────────────────────────────
// Intra_4×4 prediction-mode records (for I_NxN)
// ─────────────────────────────────────────────────────────────────────

/// What the bitstream says of one 4×4 block's prediction mode.
#[derive(Clone, Copy, Debug, PartialEq, Eq)]
pub enum Intra4x4ModeRecord {
    /// prev_intra4x4_pred_mode_flag = 1: use the predicted mode.
    UsePredicted,
    /// rem_intra4x4_pred_mode: resolved against the predicted mode.
    Explicit { rem: u8 },
}

/// The sixteen mode records of an I_NxN macroblock, in block-scan order.
#[derive(Clone, Debug)]
pub struct Intra4x4ModeInfo {
    pub records: [Intra4x4ModeRecord; 16],
}

/// The mode index a record resolves to, given the predicted index.
pub open spec fn resolved_index(record: Intra4x4ModeRecord, predicted: u8) -> int {
    match record {
        Intra4x4ModeRecord::UsePredicted => predicted as int,
        Intra4x4ModeRecord::Explicit { rem } => if rem < predicted { rem as int } else { rem + 1 },
    }
}

/// `Intra4x4Mode::from_index` as a function of the index.
pub open spec fn intra4x4_from_index(idx: int) -> Result<Intra4x4Mode, DecodeError> {
    match intra4x4_mode_of(idx) {
        Some(m) => Ok(m),
        None => Err(DecodeError::OutOfScope("Intra4x4 mode out of range")),
    }
}

/// Resolve one block's mode: the predicted one when the record says so,
/// else the remainder, skipping over the predicted index.
pub fn resolve_intra4x4_mode(record: Intra4x4ModeRecord, predicted: u8) -> (res: Result<Intra4x4Mode, DecodeError>)
    requires
        record matches Intra4x4ModeRecord::Explicit { rem } ==> rem < predicted || rem < 255,
    ensures
        res == intra4x4_from_index(resolved_index(record, predicted)),
{
    let final_idx = match record {
        Intra4x4ModeRecord::UsePredicted => predicted,
        Intra4x4ModeRecord::Explicit { rem } => if rem < predicted { rem } else { rem + 1 },
    };
    Intra4x4Mode::from_index(final_idx)
}

/// The records of blocks `i..16`, read from position `p`, written into
/// `recs`.
pub open spec fn mode_records_loop(s: Seq<u8>, p: int, i: int, recs: Seq<Intra4x4ModeRecord>) -> (Result<Seq<Intra4x4ModeRecord>, DecodeError>, int)
    decreases 16 - i,
{
    if i >= 16 {
        (Ok(recs), p)
    } else {
        let (b, p1) = bit_spec(s, p);
        match b {
            Err(e) => (Err(e), p1),
            Ok(flag) => if flag != 0 {
                mode_records_loop(s, p1, i + 1, recs.update(i, Intra4x4ModeRecord::UsePredicted))
            } else {
                let (r, p2) = bits_spec(s, p1, 3);
                match r {
                    Err(e) => (Err(e), p2),
                    Ok(v) => mode_records_loop(s, p2, i + 1, recs.update(i, Intra4x4ModeRecord::Explicit { rem: v as u8 })),
                }
            },
        }
    }
}

/// What `parse_intra_4x4_mode_info` does at position `p`.
pub open spec fn mode_info_spec(s: Seq<u8>, p: int) -> (Result<Seq<Intra4x4ModeRecord>, DecodeError>, int) {
    mode_records_loop(s, p, 0, Seq::new(16, |i: int| Intra4x4ModeRecord::UsePredicted))
}

/// Read sixteen (prev_flag, rem) pairs.
pub fn parse_intra_4x4_mode_info(br: &mut BitReader) -> (res: Result<Intra4x4ModeInfo, DecodeError>)
    ensures
        final(br).data() == old(br).data(),
        ({
            let (r, q) = mode_info_spec(old(br).data(), old(br).pos());
            &&& final(br).pos() == q
            &&& match r {
                Ok(recs) => res matches Ok(info) && info.records@ == recs,
                Err(e) => res matches Err(e2) && e2 == e,
            }
        }),
{
    let ghost s = br.data();
    let mut records = [Intra4x4ModeRecord::UsePredicted; 16];
    assert(records@ =~= Seq::new(16, |i: int| Intra4x4ModeRecord::UsePredicted));
    let mut i: usize = 0;
    while i < 16
        invariant
            br.data() == s,
            s == old(br).data(),
            i <= 16,
            records@.len() == 16,
            mode_info_spec(s, old(br).pos()) == mode_records_loop(s, br.pos(), i as int, records@),
        decreases 16 - i,
    {
        let flag = match br.read_bit() {
            Ok(b) => b,
            Err(e) => { return Err(e); },
        };
        if flag != 0 {
            records[i] = Intra4x4ModeRecord::UsePredicted;
        } else {
            let rem = match br.read_bits(3) {
                Ok(v) => v as u8,
                Err(e) => { return Err(e); },
            };
            records[i] = Intra4x4ModeRecord::Explicit { rem };
        }
        i += 1;
    }
    Ok(Intra4x4ModeInfo { records })
}

// ─────────────────────────────────────────────────────────────────────
// coded_block_pattern (Table 9-4)
// ─────────────────────────────────────────────────────────────────────

/// Coded block pattern: four luma bits (one per 8×8 block) and the chroma
/// pattern (0 none, 1 DC only, 2 DC and AC).
#[derive(Clone, Copy, Debug, PartialEq, Eq)]
pub struct CodedBlockPattern {
    pub luma: u8,
    pub chroma: u8,
}

/// The packed 6-bit form `chroma << 4 | luma`, as a `u8` (the chroma
/// shift keeps the low four bits of `chroma`).
pub open spec fn cbp_pack_spec(c: CodedBlockPattern) -> u8 {
    ((c.chroma % 16) * 16 + c.luma % 16) as u8
}

/// The pattern a packed byte stands for.
pub open spec fn cbp_unpack_spec(bits: u8) -> CodedBlockPattern {
    CodedBlockPattern { luma: bits % 16, chroma: ((bits / 16) % 4) as u8 }
}

proof fn lemma_cbp_bits(l: u8, c: u8, b: u8)
    by (bit_vector)
    ensures
        (c << 4u8) | (l & 0xfu8) == (c % 16) * 16 + l % 16,
        b & 0xfu8 == b % 16,
        (b >> 4u8) & 0x3u8 == (b / 16) % 4,
{
}

impl CodedBlockPattern {
    /// Pack as `chroma << 4 | luma`.
    pub fn pack(&self) -> (r: u8)
        ensures
            r == cbp_pack_spec(*self),
    {
        proof { lemma_cbp_bits(self.luma, self.chroma, 0); }
        (self.chroma << 4) | (self.luma & 0xf)
    }

    /// Unpack the low four bits as luma and the next two as chroma.
    pub fn unpack(bits: u8) -> (r: Self)
        ensures
            r == cbp_unpack_spec(bits),
    {
        proof { lemma_cbp_bits(0, 0, bits); }
        Self { luma: bits & 0xf, chroma: (bits >> 4) & 0x3 }
    }
}

/// Unpacking a packed pattern gives it back, for every pattern with a
/// four-bit luma part and a chroma part below 4.
pub proof fn lemma_cbp_unpack_pack(c: CodedBlockPattern)
    requires
        c.luma < 16,
        c.chroma < 4,
    ensures
        cbp_unpack_spec(cbp_pack_spec(c)) == c,
{
}

/// Packing an unpacked 6-bit value gives it back.
pub proof fn lemma_cbp_pack_unpack(bits: u8)
    requires
        bits < 64,
    ensures
        cbp_pack_spec(cbp_unpack_spec(bits)) == bits,
{
}

/// Table 9-4(a), intra column for 4:2:0: codeNum → packed pattern.
pub open spec fn cbp_table_spec() -> Seq<u8> {
    seq![
        47u8, 31, 15, 0, 23, 27, 29, 30,
        7, 11, 13, 14, 39, 43, 45, 46,
        16, 3, 5, 10, 12, 19, 21, 26,
        28, 35, 37, 42, 44, 1, 2, 4,
        8, 17, 18, 20, 24, 6, 9, 22,
        25, 32, 33, 34, 36, 40, 38, 41,
    ]
}

fn cbp_table() -> (t: [u8; 48])
    ensures
        t@ == cbp_table_spec(),
{
    let t: [u8; 48] = [
        47, 31, 15, 0, 23, 27, 29, 30,
        7, 11, 13, 14, 39, 43, 45, 46,
        16, 3, 5, 10, 12, 19, 21, 26,
        28, 35, 37, 42, 44, 1, 2, 4,
        8, 17, 18, 20, 24, 6, 9, 22,
        25, 32, 33, 34, 36, 40, 38, 41,
    ];
    assert(t@ =~= cbp_table_spec());
    t
}

/// The pattern for `codenum`, if it is in the table.
pub open spec fn cbp_of_codenum(codenum: u32) -> Result<CodedBlockPattern, DecodeError> {
    if codenum > 47 {
        Err(DecodeError::CavlcInvalid)
    } else {
        Ok(cbp_unpack_spec(cbp_table_spec()[codenum as int]))
    }
}

/// Map a codeNum through Table 9-4 (the intra column, whatever
/// `_is_inter` says).
pub fn decode_cbp_from_codenum(codenum: u32, _is_inter: bool) -> (res: Result<CodedBlockPattern, DecodeError>)
    ensures
        res == cbp_of_codenum(codenum),
{
    if codenum > 47 {
        return Err(DecodeError::CavlcInvalid);
    }
    let t = cbp_table();
    let bits = t[codenum as usize];
    Ok(CodedBlockPattern::unpack(bits))
}

/// Table 9-4 for an intra macroblock with 4:2:0 chroma, codeNum by
/// codeNum as the standard lists coded_block_pattern (luma pattern in the
/// low four bits, chroma in the next two); every codeNum past 47 is
/// refused.
pub proof fn lemma_cbp_intra_table(codenum: u32)
    ensures
        cbp_of_codenum(0) == Ok::<CodedBlockPattern, DecodeError>(CodedBlockPattern { luma: 15, chroma: 2 }),
        cbp_of_codenum(1) == Ok::<CodedBlockPattern, DecodeError>(CodedBlockPattern { luma: 15, chroma: 1 }),
        cbp_of_codenum(2) == Ok::<CodedBlockPattern, DecodeError>(CodedBlockPattern { luma: 15, chroma: 0 }),
        cbp_of_codenum(3) == Ok::<CodedBlockPattern, DecodeError>(CodedBlockPattern { luma: 0, chroma: 0 }),
        cbp_of_codenum(4) == Ok::<CodedBlockPattern, DecodeError>(CodedBlockPattern { luma: 7, chroma: 1 }),
        cbp_of_codenum(5) == Ok::<CodedBlockPattern, DecodeError>(CodedBlockPattern { luma: 11, chroma: 1 }),
        cbp_of_codenum(6) == Ok::<CodedBlockPattern, DecodeError>(CodedBlockPattern { luma: 13, chroma: 1 }),
        cbp_of_codenum(7) == Ok::<CodedBlockPattern, DecodeError>(CodedBlockPattern { luma: 14, chroma: 1 }),
        cbp_of_codenum(8) == Ok::<CodedBlockPattern, DecodeError>(CodedBlockPattern { luma: 7, chroma: 0 }),
        cbp_of_codenum(9) == Ok::<CodedBlockPattern, DecodeError>(CodedBlockPattern { luma: 11, chroma: 0 }),
        cbp_of_codenum(10) == Ok::<CodedBlockPattern, DecodeError>(CodedBlockPattern { luma: 13, chroma: 0 }),
        cbp_of_codenum(11) == Ok::<CodedBlockPattern, DecodeError>(CodedBlockPattern { luma: 14, chroma: 0 }),
        cbp_of_codenum(12) == Ok::<CodedBlockPattern, DecodeError>(CodedBlockPattern { luma: 7, chroma: 2 }),
        cbp_of_codenum(13) == Ok::<CodedBlockPattern, DecodeError>(CodedBlockPattern { luma: 11, chroma: 2 }),
        cbp_of_codenum(14) == Ok::<CodedBlockPattern, DecodeError>(CodedBlockPattern { luma: 13, chroma: 2 }),
        cbp_of_codenum(15) == Ok::<CodedBlockPattern, DecodeError>(CodedBlockPattern { luma: 14, chroma: 2 }),
        cbp_of_codenum(16) == Ok::<CodedBlockPattern, DecodeError>(CodedBlockPattern { luma: 0, chroma: 1 }),
        cbp_of_codenum(17) == Ok::<CodedBlockPattern, DecodeError>(CodedBlockPattern { luma: 3, chroma: 0 }),
        cbp_of_codenum(18) == Ok::<CodedBlockPattern, DecodeError>(CodedBlockPattern { luma: 5, chroma: 0 }),
        cbp_of_codenum(19) == Ok::<CodedBlockPattern, DecodeError>(CodedBlockPattern { luma: 10, chroma: 0 }),
        cbp_of_codenum(20) == Ok::<CodedBlockPattern, DecodeError>(CodedBlockPattern { luma: 12, chroma: 0 }),
        cbp_of_codenum(21) == Ok::<CodedBlockPattern, DecodeError>(CodedBlockPattern { luma: 3, chroma: 1 }),
        cbp_of_codenum(22) == Ok::<CodedBlockPattern, DecodeError>(CodedBlockPattern { luma: 5, chroma: 1 }),
        cbp_of_codenum(23) == Ok::<CodedBlockPattern, DecodeError>(CodedBlockPattern { luma: 10, chroma: 1 }),
        cbp_of_codenum(24) == Ok::<CodedBlockPattern, DecodeError>(CodedBlockPattern { luma: 12, chroma: 1 }),
        cbp_of_codenum(25) == Ok::<CodedBlockPattern, DecodeError>(CodedBlockPattern { luma: 3, chroma: 2 }),
        cbp_of_codenum(26) == Ok::<CodedBlockPattern, DecodeError>(CodedBlockPattern { luma: 5, chroma: 2 }),
        cbp_of_codenum(27) == Ok::<CodedBlockPattern, DecodeError>(CodedBlockPattern { luma: 10, chroma: 2 }),
        cbp_of_codenum(28) == Ok::<CodedBlockPattern, DecodeError>(CodedBlockPattern { luma: 12, chroma: 2 }),
        cbp_of_codenum(29) == Ok::<CodedBlockPattern, DecodeError>(CodedBlockPattern { luma: 1, chroma: 0 }),
        cbp_of_codenum(30) == Ok::<CodedBlockPattern, DecodeError>(CodedBlockPattern { luma: 2, chroma: 0 }),
        cbp_of_codenum(31) == Ok::<CodedBlockPattern, DecodeError>(CodedBlockPattern { luma: 4, chroma: 0 }),
        cbp_of_codenum(32) == Ok::<CodedBlockPattern, DecodeError>(CodedBlockPattern { luma: 8, chroma: 0 }),
        cbp_of_codenum(33) == Ok::<CodedBlockPattern, DecodeError>(CodedBlockPattern { luma: 1, chroma: 1 }),
        cbp_of_codenum(34) == Ok::<CodedBlockPattern, DecodeError>(CodedBlockPattern { luma: 2, chroma: 1 }),
        cbp_of_codenum(35) == Ok::<CodedBlockPattern, DecodeError>(CodedBlockPattern { luma: 4, chroma: 1 }),
        cbp_of_codenum(36) == Ok::<CodedBlockPattern, DecodeError>(CodedBlockPattern { luma: 8, chroma: 1 }),
        cbp_of_codenum(37) == Ok::<CodedBlockPattern, DecodeError>(CodedBlockPattern { luma: 6, chroma: 0 }),
        cbp_of_codenum(38) == Ok::<CodedBlockPattern, DecodeError>(CodedBlockPattern { luma: 9, chroma: 0 }),
        cbp_of_codenum(39) == Ok::<CodedBlockPattern, DecodeError>(CodedBlockPattern { luma: 6, chroma: 1 }),
        cbp_of_codenum(40) == Ok::<CodedBlockPattern, DecodeError>(CodedBlockPattern { luma: 9, chroma: 1 }),
        cbp_of_codenum(41) == Ok::<CodedBlockPattern, DecodeError>(CodedBlockPattern { luma: 0, chroma: 2 }),
        cbp_of_codenum(42) == Ok::<CodedBlockPattern, DecodeError>(CodedBlockPattern { luma: 1, chroma: 2 }),
        cbp_of_codenum(43) == Ok::<CodedBlockPattern, DecodeError>(CodedBlockPattern { luma: 2, chroma: 2 }),
        cbp_of_codenum(44) == Ok::<CodedBlockPattern, DecodeError>(CodedBlockPattern { luma: 4, chroma: 2 }),
        cbp_of_codenum(45) == Ok::<CodedBlockPattern, DecodeError>(CodedBlockPattern { luma: 8, chroma: 2 }),
        cbp_of_codenum(46) == Ok::<CodedBlockPattern, DecodeError>(CodedBlockPattern { luma: 6, chroma: 2 }),
        cbp_of_codenum(47) == Ok::<CodedBlockPattern, DecodeError>(CodedBlockPattern { luma: 9, chroma: 2 }),
        codenum > 47 ==> cbp_of_codenum(codenum) == Err::<CodedBlockPattern, DecodeError>(DecodeError::CavlcInvalid),
{
}

/// What `parse_cbp` does at position `p`.
pub open spec fn cbp_spec(s: Seq<u8>, p: int) -> (Result<CodedBlockPattern, DecodeError>, int) {
    let (r, q) = ue_spec(s, p);
    match r {
        Err(e) => (Err(e), q),
        Ok(codenum) => (cbp_of_codenum(codenum), q),
    }
}

/// Read the coded block pattern: ue(v), then Table 9-4.
pub fn parse_cbp(br: &mut BitReader, is_inter: bool) -> (res: Result<CodedBlockPattern, DecodeError>)
    ensures
        final(br).data() == old(br).data(),
        (res, final(br).pos()) == cbp_spec(old(br).data(), old(br).pos()),
{
    let codenum = match br.read_ue() {
        Ok(v) => v,
        Err(e) => { return Err(e); },
    };
    decode_cbp_from_codenum(codenum, is_inter)
}

// ─────────────────────────────────────────────────────────────────────
// The macroblock header
// ─────────────────────────────────────────────────────────────────────

/// Everything of a macroblock before its residual data.
#[derive(Clone, Debug)]
pub struct MacroblockHeader {
    pub mb_type: MbType,
    /// Present iff `mb_type` is I_NxN.
    pub intra_4x4_modes: Option<Intra4x4ModeInfo>,
    pub intra_chroma_pred_mode: IntraChromaMode,
    pub cbp: CodedBlockPattern,
    pub mb_qp_delta: i32,
}

/// A header as plain values: the mode records as a sequence.
pub type MbHeaderModel = (MbType, Option<Seq<Intra4x4ModeRecord>>, IntraChromaMode, CodedBlockPattern, i32);

impl MacroblockHeader {
    /// The header as plain values.
    pub open spec fn model(&self) -> MbHeaderModel {
        (
            self.mb_type,
            match self.intra_4x4_modes {
                Some(info) => Some(info.records@),
                None => None,
            },
            self.intra_chroma_pred_mode,
            self.cbp,
            self.mb_qp_delta,
        )
    }
}

/// The mode records stage: read for I_NxN, absent otherwise.
pub open spec fn header_modes_spec(mt: MbType, s: Seq<u8>, p: int) -> (Result<Option<Seq<Intra4x4ModeRecord>>, DecodeError>, int) {
    if mt is INxN {
        let (r, q) = mode_info_spec(s, p);
        match r {
            Ok(recs) => (Ok(Some(recs)), q),
            Err(e) => (Err(e), q),
        }
    } else {
        (Ok(None), p)
    }
}

/// The chroma prediction mode stage: ue(v), taken modulo 256.
pub open spec fn header_chroma_spec(s: Seq<u8>, p: int) -> (Result<IntraChromaMode, DecodeError>, int) {
    let (r, q) = ue_spec(s, p);
    match r {
        Err(e) => (Err(e), q),
        Ok(v) => match intra_chroma_mode_of((v as u8) as int) {
            Some(m) => (Ok(m), q),
            None => (Err(DecodeError::OutOfScope("intra chroma mode out of range")), q),
        },
    }
}

/// The coded block pattern stage: read for I_NxN, taken from mb_type for
/// I_16x16.
pub open spec fn header_cbp_spec(mt: MbType, s: Seq<u8>, p: int) -> (Result<CodedBlockPattern, DecodeError>, int) {
    match mt {
        MbType::I16x16 { pred_mode, cbp_luma, cbp_chroma } =>
            (Ok(CodedBlockPattern { luma: if cbp_luma == 1 { 15u8 } else { 0u8 }, chroma: cbp_chroma }), p),
        _ => cbp_spec(s, p),
    }
}

/// What `parse_macroblock_header` does at position `p`.
pub open spec fn header_spec(s: Seq<u8>, p: int) -> (Result<MbHeaderModel, DecodeError>, int) {
    let (r1, p1) = ue_spec(s, p);
    match r1 {
        Err(e) => (Err(e), p1),
        Ok(raw) => match mb_type_of(raw) {
            Err(e) => (Err(e), p1),
            Ok(mt) => if mt is IPcm {
                (Err(DecodeError::OutOfScope("I_PCM not yet wired")), p1)
            } else {
                let (r2, p2) = header_modes_spec(mt, s, p1);
                match r2 {
                    Err(e) => (Err(e), p2),
                    Ok(modes) => {
                        let (r3, p3) = header_chroma_spec(s, p2);
                        match r3 {
                            Err(e) => (Err(e), p3),
                            Ok(chroma) => {
                                let (r4, p4) = header_cbp_spec(mt, s, p3);
                                match r4 {
                                    Err(e) => (Err(e), p4),
                                    Ok(cbp) => {
                                        let (r5, p5) = se_spec(s, p4);
                                        match r5 {
                                            Err(e) => (Err(e), p5),
                                            Ok(dqp) => (Ok((mt, modes, chroma, cbp, dqp)), p5),
                                        }
                                    },
                                }
                            },
                        }
                    },
                }
            },
        },
    }
}

/// Parse the macroblock header (everything before the residual data).
pub fn parse_macroblock_header(br: &mut BitReader) -> (res: Result<MacroblockHeader, DecodeError>)
    ensures
        final(br).data() == old(br).data(),
        ({
            let (r, q) = header_spec(old(br).data(), old(br).pos());
            &&& final(br).pos() == q
            &&& match r {
                Ok(m) => res matches Ok(h) && h.model() == m,
                Err(e) => res matches Err(e2) && e2 == e,
            }
        }),
{
    let mb_type_raw = match br.read_ue() {
        Ok(v) => v,
        Err(e) => { return Err(e); },
    };
    let mb_type = match MbType::from_index(mb_type_raw) {
        Ok(m) => m,
        Err(e) => { return Err(e); },
    };
    if let MbType::IPcm = mb_type {
        return Err(DecodeError::OutOfScope("I_PCM not yet wired"));
    }
    let intra_4x4_modes = if let MbType::INxN = mb_type {
        match parse_intra_4x4_mode_info(br) {
            Ok(info) => Some(info),
            Err(e) => { return Err(e); },
        }
    } else {
        None
    };
    let intra_chroma_idx = match br.read_ue() {
        Ok(v) => v as u8,
        Err(e) => { return Err(e); },
    };
    let intra_chroma_pred_mode = match IntraChromaMode::from_index(intra_chroma_idx) {
        Ok(m) => m,
        Err(e) => { return Err(e); },
    };
    let cbp = match mb_type {
        MbType::I16x16 { cbp_luma, cbp_chroma, .. } => CodedBlockPattern {
            luma: if cbp_luma == 1 { 0xf } else { 0x0 },
            chroma: cbp_chroma,
        },
        _ => match parse_cbp(br, false) {
            Ok(c) => c,
            Err(e) => { return Err(e); },
        },
    };
    let mb_qp_delta = match br.read_se() {
        Ok(v) => v,
        Err(e) => { return Err(e); },
    };
    Ok(MacroblockHeader { mb_type, intra_4x4_modes, intra_chroma_pred_mode, cbp, mb_qp_delta })
}

// ─────────────────────────────────────────────────────────────────────
// Luma residual blocks
// ─────────────────────────────────────────────────────────────────────

/// Block-scan order of the sixteen 4×4 luma blocks of a macroblock
/// (§6.4.3): entry `k` is the (column, row) of block `k`.
pub open spec fn zscan_spec() -> Seq<(usize, usize)> {
    seq![
        (0usize, 0usize), (1, 0), (0, 1), (1, 1),
        (2, 0), (3, 0), (2, 1), (3, 1),
        (0, 2), (1, 2), (0, 3), (1, 3),
        (2, 2), (3, 2), (2, 3), (3, 3),
    ]
}

/// The block-scan table.
pub fn z_scan_4x4() -> (t: [(usize, usize); 16])
    ensures
        t@ == zscan_spec(),
{
    let t: [(usize, usize); 16] = [
        (0, 0), (1, 0), (0, 1), (1, 1),
        (2, 0), (3, 0), (2, 1), (3, 1),
        (0, 2), (1, 2), (0, 3), (1, 3),
        (2, 2), (3, 2), (2, 3), (3, 3),
    ];
    assert(t@ =~= zscan_spec());
    t
}

/// Every block-scan entry is a position inside the macroblock, and block
/// `k` lies in the 8×8 quadrant `k / 4`.
pub proof fn lemma_zscan_entries()
    ensures
        forall|k: int| 0 <= k < 16 ==> {
            let (x, y) = #[trigger] zscan_spec()[k];
            &&& x < 4 && y < 4
            &&& (x / 2) + 2 * (y / 2) == k / 4
        },
{
    assert forall|k: int| 0 <= k < 16 implies ({
        let (x, y) = #[trigger] zscan_spec()[k];
        &&& x < 4 && y < 4
        &&& (x / 2) + 2 * (y / 2) == k / 4
    }) by {
        if k == 0 {} else if k == 1 {} else if k == 2 {} else if k == 3 {}
        else if k == 4 {} else if k == 5 {} else if k == 6 {} else if k == 7 {}
        else if k == 8 {} else if k == 9 {} else if k == 10 {} else if k == 11 {}
        else if k == 12 {} else if k == 13 {} else if k == 14 {} else {}
    }
}

/// The residual levels of a macroblock's sixteen luma 4×4 blocks, in
/// raster block order (`row * 4 + column`); `None` for a block whose 8×8
/// quadrant the coded block pattern marks as empty.
#[derive(Clone, Debug)]
pub struct MacroblockResiduals {
    pub luma_4x4: [Option<[i32; 16]>; 16],
}

/// A block's levels as a sequence.
pub open spec fn block_model(b: Option<[i32; 16]>) -> Option<Seq<i32>> {
    match b {
        Some(a) => Some(a@),
        None => None,
    }
}

impl MacroblockResiduals {
    /// The blocks as plain values.
    pub open spec fn model(&self) -> Seq<Option<Seq<i32>>> {
        Seq::new(16, |i: int| block_model(self.luma_4x4@[i]))
    }
}

/// nC for the block at (`x`, `y`) from the TotalCoeff of its left and top
/// neighbours inside the macroblock (§9.2.1; blocks outside it count as
/// unavailable).
pub open spec fn nc_spec(totals: Seq<u8>, x: int, y: int) -> int {
    let has_a = x > 0;
    let has_b = y > 0;
    let na = totals[y * 4 + x - 1] as int;
    let nb = totals[(y - 1) * 4 + x] as int;
    if has_a && has_b {
        (na + nb + 1) / 2
    } else if has_a {
        na
    } else if has_b {
        nb
    } else {
        0
    }
}

/// Whether the coded block pattern marks 8×8 quadrant `q` as coded.
pub open spec fn quadrant_coded(cbp_luma: u8, q: int) -> bool {
    (cbp_luma >> (q as u8)) & 1u8 == 1u8
}

/// The coeff_token table for a luma block with the given nC.
pub open spec fn nc_variant(nc: int) -> CoeffTokenVariant {
    if nc < 2 {
        CoeffTokenVariant::Vlc0
    } else if nc < 4 {
        CoeffTokenVariant::Vlc1
    } else if nc < 8 {
        CoeffTokenVariant::Vlc2
    } else {
        CoeffTokenVariant::FixedLen6
    }
}

/// Decode blocks `k..16` in block-scan order from position `p`.
pub open spec fn luma_loop(s: Seq<u8>, p: int, k: int, cbp_luma: u8, totals: Seq<u8>, blocks: Seq<Option<Seq<i32>>>) -> (Result<Seq<Option<Seq<i32>>>, DecodeError>, int)
    decreases 16 - k,
{
    if k >= 16 || k < 0 {
        (Ok(blocks), p)
    } else {
        let (x, y) = zscan_spec()[k];
        let r = y * 4 + x;
        if !quadrant_coded(cbp_luma, k / 4) {
            luma_loop(s, p, k + 1, cbp_luma, totals.update(r as int, 0u8), blocks.update(r as int, None))
        } else {
            let variant = nc_variant(nc_spec(totals, x as int, y as int));
            let (rr, q) = residual_spec(variant, s, p);
            match rr {
                Err(e) => (Err(e), q),
                Ok((tc, levels)) => luma_loop(s, q, k + 1, cbp_luma, totals.update(r as int, tc), blocks.update(r as int, Some(levels))),
            }
        }
    }
}

/// What `decode_macroblock_residuals` does at position `p` for a header
/// whose plain values are `h`.
pub open spec fn residuals_spec(h: MbHeaderModel, s: Seq<u8>, p: int) -> (Result<Seq<Option<Seq<i32>>>, DecodeError>, int) {
    match h.0 {
        MbType::INxN => {
            let (r, q) = luma_loop(s, p, 0, h.3.luma, Seq::new(16, |i: int| 0u8), Seq::new(16, |i: int| None::<Seq<i32>>));
            match r {
                Err(e) => (Err(e), q),
                Ok(blocks) => if h.3.chroma != 0 {
                    (Err(DecodeError::OutOfScope("chroma residual not wired")), q)
                } else {
                    (Ok(blocks), q)
                },
            }
        },
        MbType::I16x16 { .. } => (Err(DecodeError::OutOfScope("Intra16x16 residual not wired")), p),
        MbType::IPcm => (Err(DecodeError::OutOfScope("I_PCM not yet wired")), p),
    }
}

/// Read the luma residual blocks of an I_NxN macroblock: for each 4×4
/// block in block-scan order whose quadrant `cbp.luma` marks, one CAVLC
/// block with nC from its left and top neighbours inside the macroblock.
/// Chroma residuals and the Intra_16×16 and I_PCM layouts are reported as
/// out of scope.
pub fn decode_macroblock_residuals(br: &mut BitReader, header: &MacroblockHeader) -> (res: Result<MacroblockResiduals, DecodeError>)
    ensures
        final(br).data() == old(br).data(),
        ({
            let (r, q) = residuals_spec(header.model(), old(br).data(), old(br).pos());
            &&& final(br).pos() == q
            &&& match r {
                Ok(m) => res matches Ok(rs) && rs.model() == m,
                Err(e) => res matches Err(e2) && e2 == e,
            }
        }),
{
    match header.mb_type {
        MbType::I16x16 { .. } => { return Err(DecodeError::OutOfScope("Intra16x16 residual not wired")); },
        MbType::IPcm => { return Err(DecodeError::OutOfScope("I_PCM not yet wired")); },
        MbType::INxN => {},
    }
    let ghost s = br.data();
    let cbp_luma = header.cbp.luma;
    let zs = z_scan_4x4();
    proof { lemma_zscan_entries(); }
    let mut totals = [0u8; 16];
    let mut luma: [Option<[i32; 16]>; 16] = [None; 16];
    let ghost start = MacroblockResiduals { luma_4x4: luma };
    assert(totals@ =~= Seq::new(16, |i: int| 0u8));
    assert(start.model() =~= Seq::new(16, |i: int| None::<Seq<i32>>));
    let mut k: usize = 0;
    while k < 16
        invariant
            br.data() == s,
            s == old(br).data(),
            k <= 16,
            header.mb_type == MbType::INxN,
            cbp_luma == header.cbp.luma,
            zs@ == zscan_spec(),
            totals@.len() == 16,
            forall|j: int| 0 <= j < 16 ==> {
                let (x, y) = #[trigger] zscan_spec()[j];
                &&& x < 4 && y < 4
                &&& (x / 2) + 2 * (y / 2) == j / 4
            },
            luma_loop(s, old(br).pos(), 0, cbp_luma, Seq::new(16, |i: int| 0u8), Seq::new(16, |i: int| None::<Seq<i32>>))
                == luma_loop(s, br.pos(), k as int, cbp_luma, totals@, (MacroblockResiduals { luma_4x4: luma }).model()),
        decreases 16 - k,
    {
        let (x, y) = zs[k];
        let r = y * 4 + x;
        let q = (k / 4) as u8;
        let coded = (cbp_luma >> q) & 1 == 1;
        let ghost before = MacroblockResiduals { luma_4x4: luma };
        if !coded {
            totals[r] = 0;
            luma[r] = None;
            assert((MacroblockResiduals { luma_4x4: luma }).model() =~= before.model().update(r as int, None));
        } else {
            let nc = nc_of(&totals, x, y);
            let variant = CoeffTokenVariant::from_nc(nc, false);
            let (tc, levels) = match decode_residual_block_4x4_with_tc(br, variant) {
                Ok(v) => v,
                Err(e) => { return Err(e); },
            };
            totals[r] = tc;
            luma[r] = Some(levels);
            assert((MacroblockResiduals { luma_4x4: luma }).model() =~= before.model().update(r as int, Some(levels@)));
        }
        k += 1;
    }
    if header.cbp.chroma != 0 {
        return Err(DecodeError::OutOfScope("chroma residual not wired"));
    }
    Ok(MacroblockResiduals { luma_4x4: luma })
}

/// nC from the in-macroblock neighbours of block (`x`, `y`).
fn nc_of(totals: &[u8; 16], x: usize, y: usize) -> (nc: i32)
    requires
        x < 4,
        y < 4,
    ensures
        nc as int == nc_spec(totals@, x as int, y as int),
{
    let has_a = x > 0;
    let has_b = y > 0;
    if has_a && has_b {
        let na = totals[y * 4 + x - 1] as i32;
        let nb = totals[(y - 1) * 4 + x] as i32;
        (na + nb + 1) / 2
    } else if has_a {
        totals[y * 4 + x - 1] as i32
    } else if has_b {
        totals[(y - 1) * 4 + x] as i32
    } else {
        0
    }
}

} // verus!
