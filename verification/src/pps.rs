//! Stand-alone picture parameter set parser (§7.3.2.2): CAVLC and one
//! slice group only; the fields are read up to
//! `redundant_pic_cnt_present_flag`.

use vstd::prelude::*;

use crate::bitreader::{bit_spec, bits_spec, se_spec, ue_spec, BitReader};
use crate::error::{from_reader, DecodeError};
use crate::sps::mapped;

verus! {

/// A parsed PPS.
#[derive(Debug, Clone, PartialEq, Eq)]
pub struct Pps {
    pub pic_parameter_set_id: u32,
    pub seq_parameter_set_id: u32,
    /// Always false once parsed (CAVLC).
    pub entropy_coding_mode_flag: bool,
    pub bottom_field_pic_order_in_frame_present_flag: bool,
    /// Always 0 once parsed.
    pub num_slice_groups_minus1: u32,
    pub num_ref_idx_l0_default_active_minus1: u32,
    pub num_ref_idx_l1_default_active_minus1: u32,
    pub weighted_pred_flag: bool,
    pub weighted_bipred_idc: u32,
    pub pic_init_qp_minus26: i32,
    pub pic_init_qs_minus26: i32,
    pub chroma_qp_index_offset: i32,
    pub deblocking_filter_control_present_flag: bool,
    pub constrained_intra_pred_flag: bool,
    pub redundant_pic_cnt_present_flag: bool,
}

/// The fields up to the slice-group count: (pps id, sps id, bottom-field
/// flag) and the position after.
pub open spec fn pps_head_spec(s: Seq<u8>) -> (Result<(u32, u32, bool), DecodeError>, int) {
    let (r1, p1) = mapped(ue_spec(s, 0));
    match r1 {
        Err(e) => (Err(e), p1),
        Ok(id) => {
            let (r2, p2) = mapped(ue_spec(s, p1));
            match r2 {
                Err(e) => (Err(e), p2),
                Ok(sid) => {
                    let (r3, p3) = mapped(bit_spec(s, p2));
                    match r3 {
                        Err(e) => (Err(e), p3),
                        Ok(ent) => if ent != 0 {
                            (Err(DecodeError::UnsupportedFeature("CABAC entropy")), p3)
                        } else {
                            let (r4, p4) = mapped(bit_spec(s, p3));
                            match r4 {
                                Err(e) => (Err(e), p4),
                                Ok(bf) => {
                                    let (r5, p5) = mapped(ue_spec(s, p4));
                                    match r5 {
                                        Err(e) => (Err(e), p5),
                                        Ok(sg) => if sg != 0 {
                                            (Err(DecodeError::UnsupportedFeature("FMO / multi-slice-group")), p5)
                                        } else {
                                            (Ok((id, sid, bf != 0)), p5)
                                        },
                                    }
                                },
                            }
                        },
                    }
                },
            }
        },
    }
}

/// The remaining fields: (l0, l1, weighted_pred, weighted_bipred_idc,
/// qp, qs, chroma offset, deblocking control, constrained intra,
/// redundant_pic_cnt).
pub open spec fn pps_tail_spec(s: Seq<u8>, p: int) -> Result<(u32, u32, bool, u32, i32, i32, i32, bool, bool, bool), DecodeError> {
    let (r1, p1) = mapped(ue_spec(s, p));
    match r1 {
        Err(e) => Err(e),
        Ok(l0) => {
            let (r2, p2) = mapped(ue_spec(s, p1));
            match r2 {
                Err(e) => Err(e),
                Ok(l1) => {
                    let (r3, p3) = mapped(bit_spec(s, p2));
                    match r3 {
                        Err(e) => Err(e),
                        Ok(wp) => {
                            let (r4, p4) = mapped(bits_spec(s, p3, 2));
                            match r4 {
                                Err(e) => Err(e),
                                Ok(wb) => {
                                    let (r5, p5) = mapped(se_spec(s, p4));
                                    match r5 {
                                        Err(e) => Err(e),
                                        Ok(qp) => {
                                            let (r6, p6) = mapped(se_spec(s, p5));
                                            match r6 {
                                                Err(e) => Err(e),
                                                Ok(qs) => {
                                                    let (r7, p7) = mapped(se_spec(s, p6));
                                                    match r7 {
                                                        Err(e) => Err(e),
                                                        Ok(cq) => {
                                                            let (r8, p8) = mapped(bit_spec(s, p7));
                                                            match r8 {
                                                                Err(e) => Err(e),
                                                                Ok(db) => {
                                                                    let (r9, p9) = mapped(bit_spec(s, p8));
                                                                    match r9 {
                                                                        Err(e) => Err(e),
                                                                        Ok(ci) => {
                                                                            let (r10, p10) = mapped(bit_spec(s, p9));
                                                                            match r10 {
                                                                                Err(e) => Err(e),
                                                                                Ok(rd) => Ok((l0, l1, wp != 0, wb, qp, qs, cq, db != 0, ci != 0, rd != 0)),
                                                                            }
                                                                        },
                                                                    }
                                                                },
                                                            }
                                                        },
                                                    }
                                                },
                                            }
                                        },
                                    }
                                },
                            }
                        },
                    }
                },
            }
        },
    }
}

/// What `parse_pps` returns for the RBSP `s`.
pub open spec fn parse_pps_spec(s: Seq<u8>) -> Result<Pps, DecodeError> {
    let (rh, ph) = pps_head_spec(s);
    match rh {
        Err(e) => Err(e),
        Ok((id, sid, bf)) => match pps_tail_spec(s, ph) {
            Err(e) => Err(e),
            Ok((l0, l1, wp, wb, qp, qs, cq, db, ci, rd)) => Ok(Pps {
                pic_parameter_set_id: id,
                seq_parameter_set_id: sid,
                entropy_coding_mode_flag: false,
                bottom_field_pic_order_in_frame_present_flag: bf,
                num_slice_groups_minus1: 0,
                num_ref_idx_l0_default_active_minus1: l0,
                num_ref_idx_l1_default_active_minus1: l1,
                weighted_pred_flag: wp,
                weighted_bipred_idc: wb,
                pic_init_qp_minus26: qp,
                pic_init_qs_minus26: qs,
                chroma_qp_index_offset: cq,
                deblocking_filter_control_present_flag: db,
                constrained_intra_pred_flag: ci,
                redundant_pic_cnt_present_flag: rd,
            }),
        },
    }
}

/// Parse a PPS RBSP.
pub fn parse_pps(rbsp: &[u8]) -> (res: Result<Pps, DecodeError>)
    requires
        rbsp@.len() * 8 <= usize::MAX,
    ensures
        res == parse_pps_spec(rbsp@),
{
    let mut r = BitReader::new(rbsp);
    let pic_parameter_set_id = match r.read_ue() {
        Ok(v) => v,
        Err(e) => { return Err(from_reader(e)); },
    };
    let seq_parameter_set_id = match r.read_ue() {
        Ok(v) => v,
        Err(e) => { return Err(from_reader(e)); },
    };
    let entropy_coding_mode_flag = match r.read_bit() {
        Ok(b) => b != 0,
        Err(e) => { return Err(from_reader(e)); },
    };
    if entropy_coding_mode_flag {
        return Err(DecodeError::UnsupportedFeature("CABAC entropy"));
    }
    let bottom_field_pic_order_in_frame_present_flag = match r.read_bit() {
        Ok(b) => b != 0,
        Err(e) => { return Err(from_reader(e)); },
    };
    let num_slice_groups_minus1 = match r.read_ue() {
        Ok(v) => v,
        Err(e) => { return Err(from_reader(e)); },
    };
    if num_slice_groups_minus1 != 0 {
        return Err(DecodeError::UnsupportedFeature("FMO / multi-slice-group"));
    }
    let num_ref_idx_l0_default_active_minus1 = match r.read_ue() {
        Ok(v) => v,
        Err(e) => { return Err(from_reader(e)); },
    };
    let num_ref_idx_l1_default_active_minus1 = match r.read_ue() {
        Ok(v) => v,
        Err(e) => { return Err(from_reader(e)); },
    };
    let weighted_pred_flag = match r.read_bit() {
        Ok(b) => b != 0,
        Err(e) => { return Err(from_reader(e)); },
    };
    let weighted_bipred_idc = match r.read_bits(2) {
        Ok(v) => v,
        Err(e) => { return Err(from_reader(e)); },
    };
    let pic_init_qp_minus26 = match r.read_se() {
        Ok(v) => v,
        Err(e) => { return Err(from_reader(e)); },
    };
    let pic_init_qs_minus26 = match r.read_se() {
        Ok(v) => v,
        Err(e) => { return Err(from_reader(e)); },
    };
    let chroma_qp_index_offset = match r.read_se() {
        Ok(v) => v,
        Err(e) => { return Err(from_reader(e)); },
    };
    let deblocking_filter_control_present_flag = match r.read_bit() {
        Ok(b) => b != 0,
        Err(e) => { return Err(from_reader(e)); },
    };
    let constrained_intra_pred_flag = match r.read_bit() {
        Ok(b) => b != 0,
        Err(e) => { return Err(from_reader(e)); },
    };
    let redundant_pic_cnt_present_flag = match r.read_bit() {
        Ok(b) => b != 0,
        Err(e) => { return Err(from_reader(e)); },
    };
    Ok(Pps {
        pic_parameter_set_id,
        seq_parameter_set_id,
        entropy_coding_mode_flag,
        bottom_field_pic_order_in_frame_present_flag,
        num_slice_groups_minus1,
        num_ref_idx_l0_default_active_minus1,
        num_ref_idx_l1_default_active_minus1,
        weighted_pred_flag,
        weighted_bipred_idc,
        pic_init_qp_minus26,
        pic_init_qs_minus26,
        chroma_qp_index_offset,
        deblocking_filter_control_present_flag,
        constrained_intra_pred_flag,
        redundant_pic_cnt_present_flag,
    })
}

} // verus!
