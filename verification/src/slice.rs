//! SPS, PPS and slice header parsers (§7.3.2.1, §7.3.2.2, §7.3.3) for the
//! baseline I-frame subset: they configure the macroblock and frame
//! layers and reject what lies outside the subset with `OutOfScope`.

use vstd::prelude::*;

use crate::bitreader::{bit_spec, bits_spec, nbits, se_spec, ue_spec, BitReader};
use crate::DecodeError;

verus! {

// ─────────────────────────────────────────────────────────────────────
// SPS
// ─────────────────────────────────────────────────────────────────────

/// The sequence parameter set fields the decoder uses.
#[derive(Clone, Debug, PartialEq, Eq)]
pub struct Sps {
    /// `profile_idc`; 66 (Baseline) is the only one accepted.
    pub profile_idc: u8,
    pub seq_parameter_set_id: u32,
    /// Determines the bit width of `frame_num`.
    pub log2_max_frame_num_minus4: u32,
    /// 0 or 2.
    pub pic_order_cnt_type: u32,
    pub log2_max_pic_order_cnt_lsb_minus4: u32,
    pub num_ref_frames: u32,
    pub gaps_in_frame_num_value_allowed_flag: bool,
    /// Picture width in macroblocks, minus 1.
    pub pic_width_in_mbs_minus1: u32,
    /// Picture height in map units (macroblock rows), minus 1.
    pub pic_height_in_map_units_minus1: u32,
    /// Always true once parsed: progressive frames only.
    pub frame_mbs_only_flag: bool,
    pub direct_8x8_inference_flag: bool,
}

impl Sps {
    /// Picture width in pixels.
    pub fn pic_width(&self) -> (r: u32)
        requires
            (self.pic_width_in_mbs_minus1 + 1) * 16 <= u32::MAX,
        ensures
            r == (self.pic_width_in_mbs_minus1 + 1) * 16,
    {
        (self.pic_width_in_mbs_minus1 + 1) * 16
    }

    /// Picture height in pixels (progressive: map units are macroblock
    /// rows).
    pub fn pic_height(&self) -> (r: u32)
        requires
            (self.pic_height_in_map_units_minus1 + 1) * 16 <= u32::MAX,
        ensures
            r == (self.pic_height_in_map_units_minus1 + 1) * 16,
    {
        (self.pic_height_in_map_units_minus1 + 1) * 16
    }

    /// Parse an SPS RBSP.
    pub fn parse(rbsp: &[u8]) -> (res: Result<Sps, DecodeError>)
        requires
            rbsp@.len() * 8 <= usize::MAX,
        ensures
            res == sps_spec(rbsp@),
            res matches Ok(sps) ==> sps.log2_max_frame_num_minus4 <= 12,
    {
        let mut br = BitReader::new(rbsp);
        let profile_idc = match br.read_bits(8) {
            Ok(v) => v as u8,
            Err(e) => { return Err(e); },
        };
        if profile_idc != 66 {
            return Err(DecodeError::UnsupportedProfile);
        }
        match br.read_bits(8) {
            Ok(_) => {},
            Err(e) => { return Err(e); },
        }
        match br.read_bits(8) {
            Ok(_) => {},
            Err(e) => { return Err(e); },
        }
        let seq_parameter_set_id = match br.read_ue() {
            Ok(v) => v,
            Err(e) => { return Err(e); },
        };
        let log2_max_frame_num_minus4 = match br.read_ue() {
            Ok(v) => v,
            Err(e) => { return Err(e); },
        };
        if log2_max_frame_num_minus4 > 12 {
            return Err(DecodeError::OutOfScope("log2_max_frame_num_minus4 > 12"));
        }
        let pic_order_cnt_type = match br.read_ue() {
            Ok(v) => v,
            Err(e) => { return Err(e); },
        };
        let log2_max_pic_order_cnt_lsb_minus4 = if pic_order_cnt_type == 0 {
            match br.read_ue() {
                Ok(v) => v,
                Err(e) => { return Err(e); },
            }
        } else if pic_order_cnt_type == 2 {
            0
        } else {
            return Err(DecodeError::OutOfScope("pic_order_cnt_type == 1"));
        };
        let ghost p_tail = br.pos();
        let num_ref_frames = match br.read_ue() {
            Ok(v) => v,
            Err(e) => { return Err(e); },
        };
        let gaps_in_frame_num_value_allowed_flag = match br.read_bit() {
            Ok(b) => b != 0,
            Err(e) => { return Err(e); },
        };
        let pic_width_in_mbs_minus1 = match br.read_ue() {
            Ok(v) => v,
            Err(e) => { return Err(e); },
        };
        let pic_height_in_map_units_minus1 = match br.read_ue() {
            Ok(v) => v,
            Err(e) => { return Err(e); },
        };
        let frame_mbs_only_flag = match br.read_bit() {
            Ok(b) => b != 0,
            Err(e) => { return Err(e); },
        };
        if !frame_mbs_only_flag {
            return Err(DecodeError::OutOfScope("interlaced (frame_mbs_only_flag = 0)"));
        }
        let direct_8x8_inference_flag = match br.read_bit() {
            Ok(b) => b != 0,
            Err(e) => { return Err(e); },
        };
        let frame_cropping_flag = match br.read_bit() {
            Ok(b) => b != 0,
            Err(e) => { return Err(e); },
        };
        if frame_cropping_flag {
            let mut i: usize = 0;
            while i < 4
                invariant
                    i <= 4,
                    br.data() == rbsp@,
                    sps_head_spec(rbsp@) == (Ok::<(u8, u32, u32, u32, u32), DecodeError>((profile_idc, seq_parameter_set_id, log2_max_frame_num_minus4, pic_order_cnt_type, log2_max_pic_order_cnt_lsb_minus4)), p_tail),
                    frame_mbs_only_flag,
                    sps_tail_spec(rbsp@, p_tail) == sps_tail_after_crop(rbsp@, br.pos(), 4 - i as int,
                        (num_ref_frames, gaps_in_frame_num_value_allowed_flag, pic_width_in_mbs_minus1, pic_height_in_map_units_minus1, direct_8x8_inference_flag)),
                decreases 4 - i,
            {
                match br.read_ue() {
                    Ok(_) => {},
                    Err(e) => { return Err(e); },
                }
                i += 1;
            }
        }
        match br.read_bit() {
            Ok(_) => {},
            Err(e) => { return Err(e); },
        }
        Ok(Sps {
            profile_idc,
            seq_parameter_set_id,
            log2_max_frame_num_minus4,
            pic_order_cnt_type,
            log2_max_pic_order_cnt_lsb_minus4,
            num_ref_frames,
            gaps_in_frame_num_value_allowed_flag,
            pic_width_in_mbs_minus1,
            pic_height_in_map_units_minus1,
            frame_mbs_only_flag,
            direct_8x8_inference_flag,
        })
    }
}

/// Skip `n` ue(v) codes from position `p`.
pub open spec fn sps_crop_spec(s: Seq<u8>, p: int, n: int) -> (Result<(), DecodeError>, int)
    decreases n,
{
    if n <= 0 {
        (Ok(()), p)
    } else {
        let (r, q) = ue_spec(s, p);
        match r {
            Err(e) => (Err(e), q),
            Ok(_) => sps_crop_spec(s, q, n - 1),
        }
    }
}

/// The fields read after the picture-order-count fields, from
/// `num_ref_frames` to `direct_8x8_inference_flag`, then the cropping
/// offsets (skipped) and the VUI flag: (num_ref_frames, gaps, width,
/// height, direct_8x8).
pub open spec fn sps_tail_spec(s: Seq<u8>, p: int) -> Result<(u32, bool, u32, u32, bool), DecodeError> {
    let (r1, p1) = ue_spec(s, p);
    match r1 {
        Err(e) => Err(e),
        Ok(nrf) => {
            let (r2, p2) = bit_spec(s, p1);
            match r2 {
                Err(e) => Err(e),
                Ok(gaps) => {
                    let (r3, p3) = ue_spec(s, p2);
                    match r3 {
                        Err(e) => Err(e),
                        Ok(w) => {
                            let (r4, p4) = ue_spec(s, p3);
                            match r4 {
                                Err(e) => Err(e),
                                Ok(h) => {
                                    let (r5, p5) = bit_spec(s, p4);
                                    match r5 {
                                        Err(e) => Err(e),
                                        Ok(fmo) => if fmo == 0 {
                                            Err(DecodeError::OutOfScope("interlaced (frame_mbs_only_flag = 0)"))
                                        } else {
                                            let (r6, p6) = bit_spec(s, p5);
                                            match r6 {
                                                Err(e) => Err(e),
                                                Ok(d8) => {
                                                    let (r7, p7) = bit_spec(s, p6);
                                                    match r7 {
                                                        Err(e) => Err(e),
                                                        Ok(crop) => sps_tail_after_crop(s, p7, if crop != 0 { 4 } else { 0 },
                                                            (nrf, gaps != 0, w, h, d8 != 0)),
                                                    }
                                                },
                                            }
                                        },
                                    }
                                },
                            }
                        },
                    }
                },
            }
        },
    }
}

/// After the cropping flag: skip `n` cropping offsets, then read the VUI
/// flag.
pub open spec fn sps_tail_after_crop(s: Seq<u8>, p: int, n: int, fields: (u32, bool, u32, u32, bool)) -> Result<(u32, bool, u32, u32, bool), DecodeError> {
    let (rc, pc) = sps_crop_spec(s, p, n);
    match rc {
        Err(e) => Err(e),
        Ok(_) => {
            let (rv, pv) = bit_spec(s, pc);
            match rv {
                Err(e) => Err(e),
                Ok(_) => Ok(fields),
            }
        },
    }
}

/// The fields read before the tail: (profile, sps id, log2_max_frame_num,
/// POC type, log2 POC lsb) and the position where the tail starts.
pub open spec fn sps_head_spec(s: Seq<u8>) -> (Result<(u8, u32, u32, u32, u32), DecodeError>, int) {
    let (r1, p1) = bits_spec(s, 0, 8);
    match r1 {
        Err(e) => (Err(e), p1),
        Ok(prof) => if prof as u8 != 66 {
            (Err(DecodeError::UnsupportedProfile), p1)
        } else {
            let (r2, p2) = bits_spec(s, p1, 8);
            match r2 {
                Err(e) => (Err(e), p2),
                Ok(_) => {
                    let (r3, p3) = bits_spec(s, p2, 8);
                    match r3 {
                        Err(e) => (Err(e), p3),
                        Ok(_) => {
                            let (r4, p4) = ue_spec(s, p3);
                            match r4 {
                                Err(e) => (Err(e), p4),
                                Ok(id) => {
                                    let (r5, p5) = ue_spec(s, p4);
                                    match r5 {
                                        Err(e) => (Err(e), p5),
                                        Ok(l2) => if l2 > 12 {
                                            (Err(DecodeError::OutOfScope("log2_max_frame_num_minus4 > 12")), p5)
                                        } else {
                                            let (r6, p6) = ue_spec(s, p5);
                                            match r6 {
                                                Err(e) => (Err(e), p6),
                                                Ok(poc) => if poc == 0 {
                                                    let (r7, p7) = ue_spec(s, p6);
                                                    match r7 {
                                                        Err(e) => (Err(e), p7),
                                                        Ok(lsb) => (Ok((prof as u8, id, l2, poc, lsb)), p7),
                                                    }
                                                } else if poc == 2 {
                                                    (Ok((prof as u8, id, l2, poc, 0u32)), p6)
                                                } else {
                                                    (Err(DecodeError::OutOfScope("pic_order_cnt_type == 1")), p6)
                                                },
                                            }
                                        },
                                    }
                                },
                            }
                        },
                    }
                },
            }
        },
    }
}

/// What `Sps::parse` returns for the RBSP `s`.
pub open spec fn sps_spec(s: Seq<u8>) -> Result<Sps, DecodeError> {
    let (rh, ph) = sps_head_spec(s);
    match rh {
        Err(e) => Err(e),
        Ok((prof, id, l2, poc, lsb)) => match sps_tail_spec(s, ph) {
            Err(e) => Err(e),
            Ok((nrf, gaps, w, h, d8)) => Ok(Sps {
                profile_idc: prof,
                seq_parameter_set_id: id,
                log2_max_frame_num_minus4: l2,
                pic_order_cnt_type: poc,
                log2_max_pic_order_cnt_lsb_minus4: lsb,
                num_ref_frames: nrf,
                gaps_in_frame_num_value_allowed_flag: gaps,
                pic_width_in_mbs_minus1: w,
                pic_height_in_map_units_minus1: h,
                frame_mbs_only_flag: true,
                direct_8x8_inference_flag: d8,
            }),
        },
    }
}

// ─────────────────────────────────────────────────────────────────────
// PPS
// ─────────────────────────────────────────────────────────────────────

/// The picture parameter set.
#[derive(Clone, Debug, PartialEq, Eq)]
pub struct Pps {
    pub pic_parameter_set_id: u32,
    pub seq_parameter_set_id: u32,
    /// Always false once parsed (CAVLC).
    pub entropy_coding_mode_flag: bool,
    pub bottom_field_pic_order_in_frame_present_flag: bool,
    /// Always 0 once parsed (one slice group).
    pub num_slice_groups_minus1: u32,
    pub num_ref_idx_l0_default_active_minus1: u32,
    pub num_ref_idx_l1_default_active_minus1: u32,
    pub weighted_pred_flag: bool,
    pub weighted_bipred_idc: u8,
    /// `pic_init_qp_minus26 + 26` is the picture's initial QP.
    pub pic_init_qp_minus26: i32,
    pub pic_init_qs_minus26: i32,
    pub chroma_qp_index_offset: i32,
    pub deblocking_filter_control_present_flag: bool,
    pub constrained_intra_pred_flag: bool,
    pub redundant_pic_cnt_present_flag: bool,
}

/// The PPS fields up to `weighted_bipred_idc`: (pps id, sps id,
/// bottom_field flag, l0 default, l1 default) and the position after.
pub open spec fn pps_head_spec(s: Seq<u8>) -> (Result<(u32, u32, bool, u32, u32), DecodeError>, int) {
    let (r1, p1) = ue_spec(s, 0);
    match r1 {
        Err(e) => (Err(e), p1),
        Ok(id) => {
            let (r2, p2) = ue_spec(s, p1);
            match r2 {
                Err(e) => (Err(e), p2),
                Ok(sid) => {
                    let (r3, p3) = bit_spec(s, p2);
                    match r3 {
                        Err(e) => (Err(e), p3),
                        Ok(ent) => if ent != 0 {
                            (Err(DecodeError::OutOfScope("CABAC (entropy_coding_mode_flag = 1)")), p3)
                        } else {
                            let (r4, p4) = bit_spec(s, p3);
                            match r4 {
                                Err(e) => (Err(e), p4),
                                Ok(bf) => {
                                    let (r5, p5) = ue_spec(s, p4);
                                    match r5 {
                                        Err(e) => (Err(e), p5),
                                        Ok(sg) => if sg > 0 {
                                            (Err(DecodeError::OutOfScope("multiple slice groups")), p5)
                                        } else {
                                            let (r6, p6) = ue_spec(s, p5);
                                            match r6 {
                                                Err(e) => (Err(e), p6),
                                                Ok(l0) => {
                                                    let (r7, p7) = ue_spec(s, p6);
                                                    match r7 {
                                                        Err(e) => (Err(e), p7),
                                                        Ok(l1) => {
                                                            let (r8, p8) = bit_spec(s, p7);
                                                            match r8 {
                                                                Err(e) => (Err(e), p8),
                                                                Ok(wp) => if wp != 0 {
                                                                    (Err(DecodeError::OutOfScope("weighted_pred_flag = 1")), p8)
                                                                } else {
                                                                    let (r9, p9) = bits_spec(s, p8, 2);
                                                                    match r9 {
                                                                        Err(e) => (Err(e), p9),
                                                                        Ok(wb) => if wb as u8 != 0 {
                                                                            (Err(DecodeError::OutOfScope("weighted_bipred_idc != 0")), p9)
                                                                        } else {
                                                                            (Ok((id, sid, bf != 0, l0, l1)), p9)
                                                                        },
                                                                    }
                                                                },
                                                            }
                                                        },
                                                    }
                                                },
                                            }
                                        },
                                    }
                                },
                            }
                        },
                    }
                },
            }
        },
    }
}

/// The PPS fields after the head: (pic_init_qp_minus26,
/// pic_init_qs_minus26, chroma_qp_index_offset, deblocking control,
/// constrained intra, redundant_pic_cnt).
pub open spec fn pps_tail_spec(s: Seq<u8>, p: int) -> Result<(i32, i32, i32, bool, bool, bool), DecodeError> {
    let (r1, p1) = se_spec(s, p);
    match r1 {
        Err(e) => Err(e),
        Ok(qp) => {
            let (r2, p2) = se_spec(s, p1);
            match r2 {
                Err(e) => Err(e),
                Ok(qs) => {
                    let (r3, p3) = se_spec(s, p2);
                    match r3 {
                        Err(e) => Err(e),
                        Ok(cq) => {
                            let (r4, p4) = bit_spec(s, p3);
                            match r4 {
                                Err(e) => Err(e),
                                Ok(db) => {
                                    let (r5, p5) = bit_spec(s, p4);
                                    match r5 {
                                        Err(e) => Err(e),
                                        Ok(ci) => {
                                            let (r6, p6) = bit_spec(s, p5);
                                            match r6 {
                                                Err(e) => Err(e),
                                                Ok(rd) => Ok((qp, qs, cq, db != 0, ci != 0, rd != 0)),
                                            }
                                        },
                                    }
                                },
                            }
                        },
                    }
                },
            }
        },
    }
}

/// What `Pps::parse` returns for the RBSP `s`.
pub open spec fn pps_spec(s: Seq<u8>) -> Result<Pps, DecodeError> {
    let (rh, ph) = pps_head_spec(s);
    match rh {
        Err(e) => Err(e),
        Ok((id, sid, bf, l0, l1)) => match pps_tail_spec(s, ph) {
            Err(e) => Err(e),
            Ok((qp, qs, cq, db, ci, rd)) => Ok(Pps {
                pic_parameter_set_id: id,
                seq_parameter_set_id: sid,
                entropy_coding_mode_flag: false,
                bottom_field_pic_order_in_frame_present_flag: bf,
                num_slice_groups_minus1: 0,
                num_ref_idx_l0_default_active_minus1: l0,
                num_ref_idx_l1_default_active_minus1: l1,
                weighted_pred_flag: false,
                weighted_bipred_idc: 0,
                pic_init_qp_minus26: qp,
                pic_init_qs_minus26: qs,
                chroma_qp_index_offset: cq,
                deblocking_filter_control_present_flag: db,
                constrained_intra_pred_flag: ci,
                redundant_pic_cnt_present_flag: rd,
            }),
        },
    }
}

/// The PPS fields in syntax order (§7.3.2.2): the first two ue(v) are the
/// PPS and SPS ids; after weighted_bipred_idc come pic_init_qp_minus26,
/// pic_init_qs_minus26 and chroma_qp_index_offset as three se(v) in that
/// order, then the deblocking-control, constrained-intra and
/// redundant_pic_cnt flags as one bit each.
pub proof fn lemma_pps_field_order(s: Seq<u8>)
    ensures
        pps_spec(s) matches Ok(pps) ==> ({
            let (id, p1) = ue_spec(s, 0);
            let (sid, _) = ue_spec(s, p1);
            let ph = pps_head_spec(s).1;
            let (qp, pa) = se_spec(s, ph);
            let (qs, pb) = se_spec(s, pa);
            let (cq, pc) = se_spec(s, pb);
            &&& id == Ok::<u32, DecodeError>(pps.pic_parameter_set_id)
            &&& sid == Ok::<u32, DecodeError>(pps.seq_parameter_set_id)
            &&& qp == Ok::<i32, DecodeError>(pps.pic_init_qp_minus26)
            &&& qs == Ok::<i32, DecodeError>(pps.pic_init_qs_minus26)
            &&& cq == Ok::<i32, DecodeError>(pps.chroma_qp_index_offset)
            &&& bit_spec(s, pc).0 matches Ok(bit) && (bit != 0) == pps.deblocking_filter_control_present_flag
            &&& bit_spec(s, pc + 1).0 matches Ok(bit) && (bit != 0) == pps.constrained_intra_pred_flag
            &&& bit_spec(s, pc + 2).0 matches Ok(bit) && (bit != 0) == pps.redundant_pic_cnt_present_flag
        }),
{
}

impl Pps {
    /// Parse a PPS RBSP.
    pub fn parse(rbsp: &[u8]) -> (res: Result<Pps, DecodeError>)
        requires
            rbsp@.len() * 8 <= usize::MAX,
        ensures
            res == pps_spec(rbsp@),
    {
        let mut br = BitReader::new(rbsp);
        let pic_parameter_set_id = match br.read_ue() {
            Ok(v) => v,
            Err(e) => { return Err(e); },
        };
        let seq_parameter_set_id = match br.read_ue() {
            Ok(v) => v,
            Err(e) => { return Err(e); },
        };
        let entropy_coding_mode_flag = match br.read_bit() {
            Ok(b) => b != 0,
            Err(e) => { return Err(e); },
        };
        if entropy_coding_mode_flag {
            return Err(DecodeError::OutOfScope("CABAC (entropy_coding_mode_flag = 1)"));
        }
        let bottom_field_pic_order_in_frame_present_flag = match br.read_bit() {
            Ok(b) => b != 0,
            Err(e) => { return Err(e); },
        };
        let num_slice_groups_minus1 = match br.read_ue() {
            Ok(v) => v,
            Err(e) => { return Err(e); },
        };
        if num_slice_groups_minus1 > 0 {
            return Err(DecodeError::OutOfScope("multiple slice groups"));
        }
        let num_ref_idx_l0_default_active_minus1 = match br.read_ue() {
            Ok(v) => v,
            Err(e) => { return Err(e); },
        };
        let num_ref_idx_l1_default_active_minus1 = match br.read_ue() {
            Ok(v) => v,
            Err(e) => { return Err(e); },
        };
        let weighted_pred_flag = match br.read_bit() {
            Ok(b) => b != 0,
            Err(e) => { return Err(e); },
        };
        if weighted_pred_flag {
            return Err(DecodeError::OutOfScope("weighted_pred_flag = 1"));
        }
        let weighted_bipred_idc = match br.read_bits(2) {
            Ok(v) => v as u8,
            Err(e) => { return Err(e); },
        };
        if weighted_bipred_idc != 0 {
            return Err(DecodeError::OutOfScope("weighted_bipred_idc != 0"));
        }
        let pic_init_qp_minus26 = match br.read_se() {
            Ok(v) => v,
            Err(e) => { return Err(e); },
        };
        let pic_init_qs_minus26 = match br.read_se() {
            Ok(v) => v,
            Err(e) => { return Err(e); },
        };
        let chroma_qp_index_offset = match br.read_se() {
            Ok(v) => v,
            Err(e) => { return Err(e); },
        };
        let deblocking_filter_control_present_flag = match br.read_bit() {
            Ok(b) => b != 0,
            Err(e) => { return Err(e); },
        };
        let constrained_intra_pred_flag = match br.read_bit() {
            Ok(b) => b != 0,
            Err(e) => { return Err(e); },
        };
        let redundant_pic_cnt_present_flag = match br.read_bit() {
            Ok(b) => b != 0,
            Err(e) => { return Err(e); },
        };
        Ok(Pps {
            pic_parameter_set_id,
            seq_parameter_set_id,
            entropy_coding_mode_flag,
            bottom_field_pic_order_in_frame_present_flag,
            num_slice_groups_minus1,
            num_ref_idx_l0_default_active_minus1,
            num_ref_idx_l1_default_active_minus1,
            weighted_pred_flag,
            weighted_bipred_idc,
            pic_init_qp_minus26,
            pic_init_qs_minus26,
            chroma_qp_index_offset,
            deblocking_filter_control_present_flag,
            constrained_intra_pred_flag,
            redundant_pic_cnt_present_flag,
        })
    }
}

// ─────────────────────────────────────────────────────────────────────
// Slice header
// ─────────────────────────────────────────────────────────────────────

/// Slice types (Table 7-6); only `I` is in scope.
#[derive(Clone, Copy, Debug, PartialEq, Eq)]
pub enum SliceType {
    /// slice_type 2 or 7.
    I,
    /// slice_type 0 or 5.
    P,
    /// slice_type 1 or 6.
    B,
    /// slice_type 3 or 8.
    Sp,
    /// slice_type 4 or 9.
    Si,
}

/// The slice type of a raw `slice_type` value (taken modulo 5).
pub open spec fn slice_type_of(raw: u32) -> SliceType {
    let r = raw % 5;
    if r == 2 {
        SliceType::I
    } else if r == 0 {
        SliceType::P
    } else if r == 1 {
        SliceType::B
    } else if r == 3 {
        SliceType::Sp
    } else {
        SliceType::Si
    }
}

impl SliceType {
    /// The slice type of a raw `slice_type` value; the `+5` forms alias
    /// the base ones.
    pub fn from_raw(raw: u32) -> (r: Self)
        ensures
            r == slice_type_of(raw),
    {
        let m = raw % 5;
        if m == 2 {
            SliceType::I
        } else if m == 0 {
            SliceType::P
        } else if m == 1 {
            SliceType::B
        } else if m == 3 {
            SliceType::Sp
        } else {
            SliceType::Si
        }
    }
}

/// The slice header fields the decoder uses.
#[derive(Clone, Debug, PartialEq, Eq)]
pub struct SliceHeader {
    /// Always 0 once parsed (one slice per picture).
    pub first_mb_in_slice: u32,
    pub slice_type: SliceType,
    pub pic_parameter_set_id: u32,
    pub frame_num: u32,
    pub idr_pic_id: Option<u32>,
    pub pic_order_cnt_lsb: Option<u32>,
    pub slice_qp_delta: i32,
    /// `pic_init_qp_minus26 + 26 + slice_qp_delta`.
    pub slice_qp_y: i32,
    pub disable_deblocking_filter_idc: u32,
    pub slice_alpha_c0_offset_div2: i32,
    pub slice_beta_offset_div2: i32,
}

/// The parameters of memory_management_control_operation `m` (Table 7-9):
/// operations 1, 2, 3, 4 and 6 carry one ue(v), operation 3 a second one.
pub open spec fn mmco_params(m: u32) -> int {
    if m == 3 { 2 } else if m == 1 || m == 2 || m == 4 || m == 6 { 1 } else { 0 }
}

/// Skip `n` ue(v) codes.
pub open spec fn skip_ue_spec(s: Seq<u8>, p: int, n: int) -> (Result<(), DecodeError>, int)
    decreases n,
{
    if n <= 0 {
        (Ok(()), p)
    } else {
        let (r, q) = ue_spec(s, p);
        match r {
            Err(e) => (Err(e), q),
            Ok(_) => skip_ue_spec(s, q, n - 1),
        }
    }
}

/// A successful ue(v) read moves forward and stays inside the data.
pub proof fn lemma_ue_advances(s: Seq<u8>, p: int)
    requires
        0 <= p,
    ensures
        ue_spec(s, p).0 is Ok ==> p < ue_spec(s, p).1 <= nbits(s),
{
}

/// Skipping `n` ue(v) codes never moves backward, and a successful skip
/// stays inside the data.
pub proof fn lemma_skip_ue_advances(s: Seq<u8>, p: int, n: int)
    requires
        0 <= p <= nbits(s),
    ensures
        p <= skip_ue_spec(s, p, n).1,
        skip_ue_spec(s, p, n).0 is Ok ==> skip_ue_spec(s, p, n).1 <= nbits(s),
    decreases n,
{
    if n > 0 {
        lemma_ue_advances(s, p);
        let (r, q) = ue_spec(s, p);
        if r is Ok {
            lemma_skip_ue_advances(s, q, n - 1);
        } else {
            lemma_ue_err_pos(s, p);
        }
    }
}

/// A ue(v) read, failed or not, never moves backward.
pub proof fn lemma_ue_err_pos(s: Seq<u8>, p: int)
    requires
        0 <= p <= nbits(s),
    ensures
        p <= ue_spec(s, p).1,
{
}

/// The memory-management operations from position `p` up to the
/// terminating 0.
pub open spec fn mmco_loop(s: Seq<u8>, p: int) -> (Result<(), DecodeError>, int)
    decreases nbits(s) - p,
    when 0 <= p <= nbits(s)
{
    let (r, q) = ue_spec(s, p);
    match r {
        Err(e) => (Err(e), q),
        Ok(m) => if m == 0 {
            (Ok(()), q)
        } else if m > 6 {
            (Err(DecodeError::OutOfScope("unknown MMCO")), q)
        } else {
            let (r2, q2) = skip_ue_spec(s, q, mmco_params(m));
            match r2 {
                Err(e) => (Err(e), q2),
                Ok(_) => {
                    proof {
                        lemma_ue_advances(s, p);
                        lemma_skip_ue_advances(s, q, mmco_params(m));
                    }
                    mmco_loop(s, q2)
                },
            }
        },
    }
}

/// The slice header fields from `idr_pic_id` to the reference marking:
/// (idr_pic_id, pic_order_cnt_lsb).
pub open spec fn slice_mid_spec(s: Seq<u8>, p: int, sps: Sps, is_idr: bool) -> (Result<(Option<u32>, Option<u32>), DecodeError>, int) {
    let (ri, pi) = if is_idr {
        let (r, q) = ue_spec(s, p);
        match r {
            Err(e) => (Err(e), q),
            Ok(v) => (Ok(Some(v)), q),
        }
    } else {
        (Ok(None), p)
    };
    match ri {
        Err(e) => (Err(e), pi),
        Ok(idr) => {
            let (rl, pl) = if sps.pic_order_cnt_type == 0 {
                let (r, q) = bits_spec(s, pi, (sps.log2_max_pic_order_cnt_lsb_minus4 + 4) as nat);
                match r {
                    Err(e) => (Err(e), q),
                    Ok(v) => (Ok(Some(v)), q),
                }
            } else {
                (Ok(None), pi)
            };
            match rl {
                Err(e) => (Err(e), pl),
                Ok(lsb) => {
                    let (rm, pm) = if is_idr {
                        let (r1, q1) = bit_spec(s, pl);
                        match r1 {
                            Err(e) => (Err(e), q1),
                            Ok(_) => {
                                let (r2, q2) = bit_spec(s, q1);
                                match r2 {
                                    Err(e) => (Err(e), q2),
                                    Ok(_) => (Ok(()), q2),
                                }
                            },
                        }
                    } else {
                        let (r1, q1) = bit_spec(s, pl);
                        match r1 {
                            Err(e) => (Err(e), q1),
                            Ok(adaptive) => if adaptive != 0 { mmco_loop(s, q1) } else { (Ok(()), q1) },
                        }
                    };
                    match rm {
                        Err(e) => (Err(e), pm),
                        Ok(_) => (Ok((idr, lsb)), pm),
                    }
                },
            }
        },
    }
}

/// The deblocking fields: (disable_deblocking_filter_idc, alpha offset,
/// beta offset).
pub open spec fn slice_deblock_spec(s: Seq<u8>, p: int, pps: Pps) -> (Result<(u32, i32, i32), DecodeError>, int) {
    if !pps.deblocking_filter_control_present_flag {
        (Ok((0u32, 0i32, 0i32)), p)
    } else {
        let (r1, p1) = ue_spec(s, p);
        match r1 {
            Err(e) => (Err(e), p1),
            Ok(idc) => if idc == 1 {
                (Ok((idc, 0i32, 0i32)), p1)
            } else {
                let (r2, p2) = se_spec(s, p1);
                match r2 {
                    Err(e) => (Err(e), p2),
                    Ok(a) => {
                        let (r3, p3) = se_spec(s, p2);
                        match r3 {
                            Err(e) => (Err(e), p3),
                            Ok(b) => (Ok((idc, a, b)), p3),
                        }
                    },
                }
            },
        }
    }
}

/// What `SliceHeader::parse_into` does at position `p`.
#[verifier::opaque]
pub open spec fn slice_header_spec(s: Seq<u8>, p: int, sps: Sps, pps: Pps, is_idr: bool) -> (Result<SliceHeader, DecodeError>, int) {
    let (r1, p1) = ue_spec(s, p);
    match r1 {
        Err(e) => (Err(e), p1),
        Ok(first) => if first != 0 {
            (Err(DecodeError::OutOfScope("first_mb_in_slice != 0 (multi-slice)")), p1)
        } else {
            let (r2, p2) = ue_spec(s, p1);
            match r2 {
                Err(e) => (Err(e), p2),
                Ok(raw) => if slice_type_of(raw) != SliceType::I {
                    (Err(DecodeError::OutOfScope("non-I slice")), p2)
                } else {
                    let (r3, p3) = ue_spec(s, p2);
                    match r3 {
                        Err(e) => (Err(e), p3),
                        Ok(pps_id) => {
                            let (r4, p4) = bits_spec(s, p3, (sps.log2_max_frame_num_minus4 + 4) as nat);
                            match r4 {
                                Err(e) => (Err(e), p4),
                                Ok(frame_num) => {
                                    let (r5, p5) = slice_mid_spec(s, p4, sps, is_idr);
                                    match r5 {
                                        Err(e) => (Err(e), p5),
                                        Ok((idr, lsb)) => {
                                            let (r6, p6) = se_spec(s, p5);
                                            match r6 {
                                                Err(e) => (Err(e), p6),
                                                Ok(dqp) => {
                                                    let qp = pps.pic_init_qp_minus26 + 26 + dqp;
                                                    if qp < i32::MIN || qp > i32::MAX {
                                                        (Err(DecodeError::OutOfScope("slice QP out of range")), p6)
                                                    } else {
                                                        let (r7, p7) = slice_deblock_spec(s, p6, pps);
                                                        match r7 {
                                                            Err(e) => (Err(e), p7),
                                                            Ok((idc, a, b)) => (Ok(SliceHeader {
                                                                first_mb_in_slice: 0,
                                                                slice_type: SliceType::I,
                                                                pic_parameter_set_id: pps_id,
                                                                frame_num,
                                                                idr_pic_id: idr,
                                                                pic_order_cnt_lsb: lsb,
                                                                slice_qp_delta: dqp,
                                                                slice_qp_y: qp as i32,
                                                                disable_deblocking_filter_idc: idc,
                                                                slice_alpha_c0_offset_div2: a,
                                                                slice_beta_offset_div2: b,
                                                            }), p7),
                                                        }
                                                    }
                                                },
                                            }
                                        },
                                    }
                                },
                            }
                        },
                    }
                },
            }
        },
    }
}

/// The parameter sets a slice header can be read with: `frame_num` and
/// `pic_order_cnt_lsb` are at most 32 bits wide.
pub open spec fn slice_params_ok(sps: Sps) -> bool {
    &&& sps.log2_max_frame_num_minus4 <= 28
    &&& (sps.pic_order_cnt_type == 0 ==> sps.log2_max_pic_order_cnt_lsb_minus4 <= 28)
}

impl SliceHeader {
    /// Parse the slice header at the start of a slice RBSP.
    pub fn parse(rbsp: &[u8], sps: &Sps, pps: &Pps, is_idr: bool) -> (res: Result<SliceHeader, DecodeError>)
        requires
            rbsp@.len() * 8 <= usize::MAX,
            slice_params_ok(*sps),
        ensures
            res == slice_header_spec(rbsp@, 0, *sps, *pps, is_idr).0,
    {
        let mut br = BitReader::new(rbsp);
        Self::parse_into(&mut br, sps, pps, is_idr)
    }

    /// Parse the slice header from `br`, leaving it at the first
    /// macroblock. A `slice_qp_y` that does not fit in an `i32` is
    /// reported as out of scope.
    pub fn parse_into(br: &mut BitReader, sps: &Sps, pps: &Pps, is_idr: bool) -> (res: Result<SliceHeader, DecodeError>)
        requires
            slice_params_ok(*sps),
        ensures
            final(br).data() == old(br).data(),
            (res, final(br).pos()) == slice_header_spec(old(br).data(), old(br).pos(), *sps, *pps, is_idr),
            res matches Ok(h) ==> h.first_mb_in_slice == 0,
    {
        proof { reveal(slice_header_spec); }
        let ghost s = br.data();
        let first_mb_in_slice = match br.read_ue() {
            Ok(v) => v,
            Err(e) => { return Err(e); },
        };
        if first_mb_in_slice != 0 {
            return Err(DecodeError::OutOfScope("first_mb_in_slice != 0 (multi-slice)"));
        }
        let slice_type_raw = match br.read_ue() {
            Ok(v) => v,
            Err(e) => { return Err(e); },
        };
        let slice_type = SliceType::from_raw(slice_type_raw);
        match slice_type {
            SliceType::I => {},
            _ => { return Err(DecodeError::OutOfScope("non-I slice")); },
        }
        let pic_parameter_set_id = match br.read_ue() {
            Ok(v) => v,
            Err(e) => { return Err(e); },
        };
        let frame_num_bits = sps.log2_max_frame_num_minus4 + 4;
        let frame_num = match br.read_bits(frame_num_bits) {
            Ok(v) => v,
            Err(e) => { return Err(e); },
        };
        let (idr_pic_id, pic_order_cnt_lsb) = match Self::parse_mid(br, sps, is_idr) {
            Ok(v) => v,
            Err(e) => { return Err(e); },
        };
        let slice_qp_delta = match br.read_se() {
            Ok(v) => v,
            Err(e) => { return Err(e); },
        };
        let qp_wide: i64 = pps.pic_init_qp_minus26 as i64 + 26 + slice_qp_delta as i64;
        if qp_wide < i32::MIN as i64 || qp_wide > i32::MAX as i64 {
            return Err(DecodeError::OutOfScope("slice QP out of range"));
        }
        let slice_qp_y = qp_wide as i32;
        let mut disable_deblocking_filter_idc = 0u32;
        let mut slice_alpha_c0_offset_div2 = 0i32;
        let mut slice_beta_offset_div2 = 0i32;
        if pps.deblocking_filter_control_present_flag {
            disable_deblocking_filter_idc = match br.read_ue() {
                Ok(v) => v,
                Err(e) => { return Err(e); },
            };
            if disable_deblocking_filter_idc != 1 {
                slice_alpha_c0_offset_div2 = match br.read_se() {
                    Ok(v) => v,
                    Err(e) => { return Err(e); },
                };
                slice_beta_offset_div2 = match br.read_se() {
                    Ok(v) => v,
                    Err(e) => { return Err(e); },
                };
            }
        }
        Ok(SliceHeader {
            first_mb_in_slice,
            slice_type,
            pic_parameter_set_id,
            frame_num,
            idr_pic_id,
            pic_order_cnt_lsb,
            slice_qp_delta,
            slice_qp_y,
            disable_deblocking_filter_idc,
            slice_alpha_c0_offset_div2,
            slice_beta_offset_div2,
        })
    }

    /// `idr_pic_id`, `pic_order_cnt_lsb` and the reference marking.
    fn parse_mid(br: &mut BitReader, sps: &Sps, is_idr: bool) -> (res: Result<(Option<u32>, Option<u32>), DecodeError>)
        requires
            slice_params_ok(*sps),
        ensures
            final(br).data() == old(br).data(),
            (res, final(br).pos()) == slice_mid_spec(old(br).data(), old(br).pos(), *sps, is_idr),
    {
        let idr_pic_id = if is_idr {
            match br.read_ue() {
                Ok(v) => Some(v),
                Err(e) => { return Err(e); },
            }
        } else {
            None
        };
        let pic_order_cnt_lsb = if sps.pic_order_cnt_type == 0 {
            let bits = sps.log2_max_pic_order_cnt_lsb_minus4 + 4;
            match br.read_bits(bits) {
                Ok(v) => Some(v),
                Err(e) => { return Err(e); },
            }
        } else {
            None
        };
        if is_idr {
            match br.read_bit() {
                Ok(_) => {},
                Err(e) => { return Err(e); },
            }
            match br.read_bit() {
                Ok(_) => {},
                Err(e) => { return Err(e); },
            }
        } else {
            let adaptive = match br.read_bit() {
                Ok(b) => b != 0,
                Err(e) => { return Err(e); },
            };
            if adaptive {
                match skip_mmco(br) {
                    Ok(_) => {},
                    Err(e) => { return Err(e); },
                }
            }
        }
        Ok((idr_pic_id, pic_order_cnt_lsb))
    }
}

/// Skip `n` ue(v) codes.
fn skip_ue(br: &mut BitReader, n: u32) -> (res: Result<(), DecodeError>)
    ensures
        final(br).data() == old(br).data(),
        (res, final(br).pos()) == skip_ue_spec(old(br).data(), old(br).pos(), n as int),
{
    let ghost s = br.data();
    let mut i: u32 = 0;
    while i < n
        invariant
            br.data() == s,
            s == old(br).data(),
            i <= n,
            skip_ue_spec(s, old(br).pos(), n as int) == skip_ue_spec(s, br.pos(), (n - i) as int),
        decreases n - i,
    {
        match br.read_ue() {
            Ok(_) => {},
            Err(e) => { return Err(e); },
        }
        i += 1;
    }
    Ok(())
}

/// Read memory_management_control_operation codes up to the
/// terminating 0, skipping their parameters.
fn skip_mmco(br: &mut BitReader) -> (res: Result<(), DecodeError>)
    ensures
        final(br).data() == old(br).data(),
        (res, final(br).pos()) == mmco_loop(old(br).data(), old(br).pos()),
{
    let ghost s = br.data();
    // The cursor lies inside the data.
    let _ = br.bit_pos();
    loop
        invariant
            br.data() == s,
            s == old(br).data(),
            0 <= br.pos() <= nbits(s),
            mmco_loop(s, old(br).pos()) == mmco_loop(s, br.pos()),
        decreases nbits(s) - br.pos(),
    {
        let ghost p = br.pos();
        proof { lemma_ue_advances(s, p); }
        let mmco = match br.read_ue() {
            Ok(v) => v,
            Err(e) => { return Err(e); },
        };
        if mmco == 0 {
            return Ok(());
        }
        if mmco > 6 {
            return Err(DecodeError::OutOfScope("unknown MMCO"));
        }
        let ghost q = br.pos();
        proof { lemma_skip_ue_advances(s, q, mmco_params(mmco)); }
        let n: u32 = if mmco == 3 { 2 } else if mmco == 5 { 0 } else { 1 };
        match skip_ue(br, n) {
            Ok(_) => {},
            Err(e) => { return Err(e); },
        }
    }
}

} // verus!
