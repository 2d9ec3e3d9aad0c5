//! Stand-alone sequence parameter set parser (§7.3.2.1): Baseline
//! profile only (Main, Extended and the rest are refused), progressive
//! frames only; the fields after the cropping offsets (VUI) are not read.

use vstd::prelude::*;

use crate::bitreader::{bit_spec, bits_spec, se_spec, ue_spec, BitReader};
use crate::error::{from_reader, from_reader_spec, DecodeError};

pub mod profile;

verus! {

/// A parsed SPS.
#[derive(Debug, Clone, PartialEq, Eq)]
pub struct Sps {
    pub profile_idc: u8,
    /// constraint_set0..5 flags and the two reserved bits.
    pub constraint_set_flags: u8,
    pub level_idc: u8,
    pub seq_parameter_set_id: u32,
    /// Always 1 (4:2:0).
    pub chroma_format_idc: u32,
    pub bit_depth_luma_minus8: u32,
    pub bit_depth_chroma_minus8: u32,
    pub log2_max_frame_num_minus4: u32,
    pub pic_order_cnt_type: u32,
    /// Present for picture order count type 0.
    pub log2_max_pic_order_cnt_lsb_minus4: Option<u32>,
    pub max_num_ref_frames: u32,
    pub gaps_in_frame_num_value_allowed_flag: bool,
    pub pic_width_in_mbs_minus1: u32,
    pub pic_height_in_map_units_minus1: u32,
    /// Always true once parsed.
    pub frame_mbs_only_flag: bool,
    pub direct_8x8_inference_flag: bool,
    /// (left, right, top, bottom) when frame_cropping_flag is set.
    pub frame_cropping_offsets: Option<(u32, u32, u32, u32)>,
}

impl Sps {
    /// Picture width in pixels.
    pub fn pic_width(&self) -> (r: u32)
        requires
            16 * (self.pic_width_in_mbs_minus1 + 1) <= u32::MAX,
        ensures
            r == 16 * (self.pic_width_in_mbs_minus1 + 1),
    {
        16 * (self.pic_width_in_mbs_minus1 + 1)
    }

    /// Picture height in pixels (map units are macroblock rows).
    pub fn pic_height(&self) -> (r: u32)
        requires
            16 * (self.pic_height_in_map_units_minus1 + 1) <= u32::MAX,
        ensures
            r == 16 * (self.pic_height_in_map_units_minus1 + 1),
    {
        16 * (self.pic_height_in_map_units_minus1 + 1)
    }
}

/// A reader result with the reader error mapped.
pub open spec fn mapped<T>(r: (Result<T, crate::DecodeError>, int)) -> (Result<T, DecodeError>, int) {
    match r.0 {
        Ok(v) => (Ok(v), r.1),
        Err(e) => (Err(from_reader_spec(e)), r.1),
    }
}

/// Skip `n` se(v) codes.
pub open spec fn skip_se_spec(s: Seq<u8>, p: int, n: int) -> (Result<(), DecodeError>, int)
    decreases n,
{
    if n <= 0 {
        (Ok(()), p)
    } else {
        let (r, q) = mapped(se_spec(s, p));
        match r {
            Err(e) => (Err(e), q),
            Ok(_) => skip_se_spec(s, q, n - 1),
        }
    }
}

/// The picture-order-count fields for POC type `poc`: the log2 lsb
/// width for type 0; for type 1 a flag, two offsets, a count `n` and `n`
/// offsets, all skipped.
pub open spec fn poc_spec(s: Seq<u8>, p: int, poc: u32) -> (Result<Option<u32>, DecodeError>, int) {
    if poc == 0 {
        let (r, q) = mapped(ue_spec(s, p));
        match r {
            Err(e) => (Err(e), q),
            Ok(v) => (Ok(Some(v)), q),
        }
    } else if poc == 1 {
        let (r1, p1) = mapped(bit_spec(s, p));
        match r1 {
            Err(e) => (Err(e), p1),
            Ok(_) => {
                let (r2, p2) = skip_se_spec(s, p1, 2);
                match r2 {
                    Err(e) => (Err(e), p2),
                    Ok(_) => {
                        let (r3, p3) = mapped(ue_spec(s, p2));
                        match r3 {
                            Err(e) => (Err(e), p3),
                            Ok(n) => {
                                let (r4, p4) = skip_se_spec(s, p3, n as int);
                                match r4 {
                                    Err(e) => (Err(e), p4),
                                    Ok(_) => (Ok(None), p4),
                                }
                            },
                        }
                    },
                }
            },
        }
    } else if poc == 2 {
        (Ok(None), p)
    } else {
        (Err(DecodeError::OutOfRange("pic_order_cnt_type")), p)
    }
}

/// The fields before the picture-order-count type: (profile,
/// constraint flags, level, sps id, log2_max_frame_num) and the position
/// after.
pub open spec fn sps_head_spec(s: Seq<u8>) -> (Result<(u8, u8, u8, u32, u32), DecodeError>, int) {
    let (r1, p1) = mapped(bits_spec(s, 0, 8));
    match r1 {
        Err(e) => (Err(e), p1),
        Ok(prof) => {
            let (r2, p2) = mapped(bits_spec(s, p1, 8));
            match r2 {
                Err(e) => (Err(e), p2),
                Ok(cf) => {
                    let (r3, p3) = mapped(bits_spec(s, p2, 8));
                    match r3 {
                        Err(e) => (Err(e), p3),
                        Ok(lvl) => {
                            let (r4, p4) = mapped(ue_spec(s, p3));
                            match r4 {
                                Err(e) => (Err(e), p4),
                                Ok(id) => {
                                    let pr = prof as u8;
                                    if pr == 77 || pr == 88 {
                                        (Err(DecodeError::UnsupportedFeature("Main/Extended profile")), p4)
                                    } else if pr != 66 {
                                        (Err(DecodeError::UnsupportedFeature("profile beyond baseline/main/extended")), p4)
                                    } else {
                                        let (r5, p5) = mapped(ue_spec(s, p4));
                                        match r5 {
                                            Err(e) => (Err(e), p5),
                                            Ok(l2) => if l2 > 12 {
                                                (Err(DecodeError::OutOfRange("log2_max_frame_num_minus4 > 12")), p5)
                                            } else {
                                                (Ok((pr, cf as u8, lvl as u8, id, l2)), p5)
                                            },
                                        }
                                    }
                                },
                            }
                        },
                    }
                },
            }
        },
    }
}

/// The fields from `max_num_ref_frames` to the cropping offsets:
/// (max_num_ref_frames, gaps, width, height, direct_8x8, cropping).
pub open spec fn sps_tail_spec(s: Seq<u8>, p: int) -> Result<(u32, bool, u32, u32, bool, Option<(u32, u32, u32, u32)>), DecodeError> {
    let (r1, p1) = mapped(ue_spec(s, p));
    match r1 {
        Err(e) => Err(e),
        Ok(nrf) => {
            let (r2, p2) = mapped(bit_spec(s, p1));
            match r2 {
                Err(e) => Err(e),
                Ok(gaps) => {
                    let (r3, p3) = mapped(ue_spec(s, p2));
                    match r3 {
                        Err(e) => Err(e),
                        Ok(w) => {
                            let (r4, p4) = mapped(ue_spec(s, p3));
                            match r4 {
                                Err(e) => Err(e),
                                Ok(h) => {
                                    let (r5, p5) = mapped(bit_spec(s, p4));
                                    match r5 {
                                        Err(e) => Err(e),
                                        Ok(fmo) => if fmo == 0 {
                                            Err(DecodeError::UnsupportedFeature("interlaced (mb_adaptive_frame_field)"))
                                        } else {
                                            let (r6, p6) = mapped(bit_spec(s, p5));
                                            match r6 {
                                                Err(e) => Err(e),
                                                Ok(d8) => {
                                                    let (r7, p7) = mapped(bit_spec(s, p6));
                                                    match r7 {
                                                        Err(e) => Err(e),
                                                        Ok(crop) => if crop == 0 {
                                                            Ok((nrf, gaps != 0, w, h, d8 != 0, None))
                                                        } else {
                                                            match crop_spec(s, p7) {
                                                                Err(e) => Err(e),
                                                                Ok(c) => Ok((nrf, gaps != 0, w, h, d8 != 0, Some(c))),
                                                            }
                                                        },
                                                    }
                                                },
                                            }
                                        },
                                    }
                                },
                            }
                        },
                    }
                },
            }
        },
    }
}

/// The four cropping offsets.
pub open spec fn crop_spec(s: Seq<u8>, p: int) -> Result<(u32, u32, u32, u32), DecodeError> {
    let (r1, p1) = mapped(ue_spec(s, p));
    match r1 {
        Err(e) => Err(e),
        Ok(l) => {
            let (r2, p2) = mapped(ue_spec(s, p1));
            match r2 {
                Err(e) => Err(e),
                Ok(rt) => {
                    let (r3, p3) = mapped(ue_spec(s, p2));
                    match r3 {
                        Err(e) => Err(e),
                        Ok(t) => {
                            let (r4, p4) = mapped(ue_spec(s, p3));
                            match r4 {
                                Err(e) => Err(e),
                                Ok(b) => Ok((l, rt, t, b)),
                            }
                        },
                    }
                },
            }
        },
    }
}

/// What `parse_sps` returns for the RBSP `s`.
pub open spec fn parse_sps_spec(s: Seq<u8>) -> Result<Sps, DecodeError> {
    let (rh, ph) = sps_head_spec(s);
    match rh {
        Err(e) => Err(e),
        Ok((prof, cf, lvl, id, l2)) => {
            let (rt, pt) = mapped(ue_spec(s, ph));
            match rt {
                Err(e) => Err(e),
                Ok(poc) => {
                    let (rp, pp) = poc_spec(s, pt, poc);
                    match rp {
                        Err(e) => Err(e),
                        Ok(lsb) => match sps_tail_spec(s, pp) {
                            Err(e) => Err(e),
                            Ok((nrf, gaps, w, h, d8, crop)) => Ok(Sps {
                                profile_idc: prof,
                                constraint_set_flags: cf,
                                level_idc: lvl,
                                seq_parameter_set_id: id,
                                chroma_format_idc: 1,
                                bit_depth_luma_minus8: 0,
                                bit_depth_chroma_minus8: 0,
                                log2_max_frame_num_minus4: l2,
                                pic_order_cnt_type: poc,
                                log2_max_pic_order_cnt_lsb_minus4: lsb,
                                max_num_ref_frames: nrf,
                                gaps_in_frame_num_value_allowed_flag: gaps,
                                pic_width_in_mbs_minus1: w,
                                pic_height_in_map_units_minus1: h,
                                frame_mbs_only_flag: true,
                                direct_8x8_inference_flag: d8,
                                frame_cropping_offsets: crop,
                            }),
                        },
                    }
                },
            }
        },
    }
}

fn ue(br: &mut BitReader) -> (res: Result<u32, DecodeError>)
    ensures
        final(br).data() == old(br).data(),
        (res, final(br).pos()) == mapped(ue_spec(old(br).data(), old(br).pos())),
{
    match br.read_ue() {
        Ok(v) => Ok(v),
        Err(e) => Err(from_reader(e)),
    }
}

fn flag(br: &mut BitReader) -> (res: Result<bool, DecodeError>)
    ensures
        final(br).data() == old(br).data(),
        ({
            let (r, q) = mapped(bit_spec(old(br).data(), old(br).pos()));
            &&& final(br).pos() == q
            &&& match r {
                Ok(b) => res == Ok::<bool, DecodeError>(b != 0),
                Err(e) => res == Err::<bool, DecodeError>(e),
            }
        }),
{
    match br.read_bit() {
        Ok(b) => Ok(b != 0),
        Err(e) => Err(from_reader(e)),
    }
}

fn byte(br: &mut BitReader) -> (res: Result<u8, DecodeError>)
    ensures
        final(br).data() == old(br).data(),
        ({
            let (r, q) = mapped(bits_spec(old(br).data(), old(br).pos(), 8));
            &&& final(br).pos() == q
            &&& match r {
                Ok(b) => res == Ok::<u8, DecodeError>(b as u8),
                Err(e) => res == Err::<u8, DecodeError>(e),
            }
        }),
{
    match br.read_bits(8) {
        Ok(b) => Ok(b as u8),
        Err(e) => Err(from_reader(e)),
    }
}

fn skip_se(br: &mut BitReader, n: u32) -> (res: Result<(), DecodeError>)
    ensures
        final(br).data() == old(br).data(),
        (res, final(br).pos()) == skip_se_spec(old(br).data(), old(br).pos(), n as int),
{
    let ghost s = br.data();
    let mut i: u32 = 0;
    while i < n
        invariant
            br.data() == s,
            s == old(br).data(),
            i <= n,
            skip_se_spec(s, old(br).pos(), n as int) == skip_se_spec(s, br.pos(), (n - i) as int),
        decreases n - i,
    {
        match br.read_se() {
            Ok(_) => {},
            Err(e) => { return Err(from_reader(e)); },
        }
        i += 1;
    }
    Ok(())
}

fn parse_poc(br: &mut BitReader, poc: u32) -> (res: Result<Option<u32>, DecodeError>)
    ensures
        final(br).data() == old(br).data(),
        (res, final(br).pos()) == poc_spec(old(br).data(), old(br).pos(), poc),
{
    if poc == 0 {
        match ue(br) {
            Ok(v) => Ok(Some(v)),
            Err(e) => Err(e),
        }
    } else if poc == 1 {
        match flag(br) {
            Ok(_) => {},
            Err(e) => { return Err(e); },
        }
        match skip_se(br, 2) {
            Ok(_) => {},
            Err(e) => { return Err(e); },
        }
        let n = match ue(br) {
            Ok(v) => v,
            Err(e) => { return Err(e); },
        };
        match skip_se(br, n) {
            Ok(_) => Ok(None),
            Err(e) => Err(e),
        }
    } else if poc == 2 {
        Ok(None)
    } else {
        Err(DecodeError::OutOfRange("pic_order_cnt_type"))
    }
}

fn parse_crop(br: &mut BitReader) -> (res: Result<(u32, u32, u32, u32), DecodeError>)
    ensures
        res == crop_spec(old(br).data(), old(br).pos()),
{
    let l = match ue(br) {
        Ok(v) => v,
        Err(e) => { return Err(e); },
    };
    let rt = match ue(br) {
        Ok(v) => v,
        Err(e) => { return Err(e); },
    };
    let t = match ue(br) {
        Ok(v) => v,
        Err(e) => { return Err(e); },
    };
    let b = match ue(br) {
        Ok(v) => v,
        Err(e) => { return Err(e); },
    };
    Ok((l, rt, t, b))
}

/// Parse an SPS RBSP.
pub fn parse_sps(rbsp: &[u8]) -> (res: Result<Sps, DecodeError>)
    requires
        rbsp@.len() * 8 <= usize::MAX,
    ensures
        res == parse_sps_spec(rbsp@),
{
    let mut r = BitReader::new(rbsp);
    let profile_idc = match byte(&mut r) {
        Ok(v) => v,
        Err(e) => { return Err(e); },
    };
    let constraint_set_flags = match byte(&mut r) {
        Ok(v) => v,
        Err(e) => { return Err(e); },
    };
    let level_idc = match byte(&mut r) {
        Ok(v) => v,
        Err(e) => { return Err(e); },
    };
    let seq_parameter_set_id = match ue(&mut r) {
        Ok(v) => v,
        Err(e) => { return Err(e); },
    };
    if profile_idc == profile::MAIN || profile_idc == profile::EXTENDED {
        return Err(DecodeError::UnsupportedFeature("Main/Extended profile"));
    }
    if profile_idc != profile::BASELINE {
        return Err(DecodeError::UnsupportedFeature("profile beyond baseline/main/extended"));
    }
    let log2_max_frame_num_minus4 = match ue(&mut r) {
        Ok(v) => v,
        Err(e) => { return Err(e); },
    };
    if log2_max_frame_num_minus4 > 12 {
        return Err(DecodeError::OutOfRange("log2_max_frame_num_minus4 > 12"));
    }
    let pic_order_cnt_type = match ue(&mut r) {
        Ok(v) => v,
        Err(e) => { return Err(e); },
    };
    let log2_max_pic_order_cnt_lsb_minus4 = match parse_poc(&mut r, pic_order_cnt_type) {
        Ok(v) => v,
        Err(e) => { return Err(e); },
    };
    let max_num_ref_frames = match ue(&mut r) {
        Ok(v) => v,
        Err(e) => { return Err(e); },
    };
    let gaps_in_frame_num_value_allowed_flag = match flag(&mut r) {
        Ok(v) => v,
        Err(e) => { return Err(e); },
    };
    let pic_width_in_mbs_minus1 = match ue(&mut r) {
        Ok(v) => v,
        Err(e) => { return Err(e); },
    };
    let pic_height_in_map_units_minus1 = match ue(&mut r) {
        Ok(v) => v,
        Err(e) => { return Err(e); },
    };
    let frame_mbs_only_flag = match flag(&mut r) {
        Ok(v) => v,
        Err(e) => { return Err(e); },
    };
    if !frame_mbs_only_flag {
        return Err(DecodeError::UnsupportedFeature("interlaced (mb_adaptive_frame_field)"));
    }
    let direct_8x8_inference_flag = match flag(&mut r) {
        Ok(v) => v,
        Err(e) => { return Err(e); },
    };
    let frame_cropping_flag = match flag(&mut r) {
        Ok(v) => v,
        Err(e) => { return Err(e); },
    };
    let frame_cropping_offsets = if frame_cropping_flag {
        match parse_crop(&mut r) {
            Ok(c) => Some(c),
            Err(e) => { return Err(e); },
        }
    } else {
        None
    };
    Ok(Sps {
        profile_idc,
        constraint_set_flags,
        level_idc,
        seq_parameter_set_id,
        chroma_format_idc: 1,
        bit_depth_luma_minus8: 0,
        bit_depth_chroma_minus8: 0,
        log2_max_frame_num_minus4,
        pic_order_cnt_type,
        log2_max_pic_order_cnt_lsb_minus4,
        max_num_ref_frames,
        gaps_in_frame_num_value_allowed_flag,
        pic_width_in_mbs_minus1,
        pic_height_in_map_units_minus1,
        frame_mbs_only_flag,
        direct_8x8_inference_flag,
        frame_cropping_offsets,
    })
}

} // verus!
