use snarkvid::error::DecodeError;
use snarkvid::pps::parse_pps;

#[test]
fn parse_pps_baseline_minimal() {
    // Minimal baseline-style PPS body: pps_id=0, sps_id=0,
    // entropy_coding_mode=0, bottom_field=0, slice_groups=0,
    // ref_idx_l0=0, ref_idx_l1=0, weighted_pred=0, weighted_bipred=0,
    // pic_init_qp=0, pic_init_qs=0, chroma_qp_offset=0,
    // deblock_present=1, constrained_intra=0, redundant=0
    // ue(0) → "1", se(0) → "1"
    // Bit stream:
    //   pps_id=0           → 1
    //   sps_id=0           → 1
    //   entropy=0          → 0
    //   bf=0               → 0
    //   sg=0 (ue 0)        → 1
    //   ref0=0             → 1
    //   ref1=0             → 1
    //   wpred=0            → 0
    //   wbipred=00         → 00
    //   piq=0              → 1
    //   pis=0              → 1
    //   cqp_off=0          → 1
    //   deblock=1          → 1
    //   constr=0           → 0
    //   redund=0           → 0
    // Concatenated: 11 0 0 1 1 1 0 00 1 1 1 1 0 0  (16 bits)
    //   → 1100 1110 0011 1100 = 0xCE3C
    // Plus stop bit + alignment to byte: append "1000_0000"
    // → 0xCE 0x3C 0x80
    let rbsp = vec![0xCE, 0x3C, 0x80];
    let pps = parse_pps(&rbsp).unwrap();
    assert_eq!(pps.pic_parameter_set_id, 0);
    assert_eq!(pps.seq_parameter_set_id, 0);
    assert!(!pps.entropy_coding_mode_flag);
    assert_eq!(pps.num_slice_groups_minus1, 0);
    assert_eq!(pps.pic_init_qp_minus26, 0);
    assert!(pps.deblocking_filter_control_present_flag);
}

#[test]
fn cabac_rejected() {
    // Same as above but with entropy_coding_mode_flag = 1.
    // Bit stream: 1 1 1 0 1 1 1 0 00 1 1 1 1 0 0 → 11101110 00111100 → 0xEE 0x3C
    let rbsp = vec![0xEE, 0x3C, 0x80];
    let r = parse_pps(&rbsp);
    assert!(matches!(
        r,
        Err(DecodeError::UnsupportedFeature(s)) if s.contains("CABAC")
    ));
}
