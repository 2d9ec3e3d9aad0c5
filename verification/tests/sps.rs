use snarkvid::sps::{parse_sps, profile};

#[test]
fn parse_sps_from_corpus_solid_16x16() {
    // Hand-extracted from test-vectors/solid_16x16.h264 (NAL after
    // first start code, header stripped): 42 c0 0a dd e8 40 00 00
    // 03 00 40 00 00 0f 03 c4 89 e0
    // Strip emulation: 42 c0 0a dd e8 40 00 00 00 40 00 00 0f c4 89 e0
    let rbsp = vec![
        0x42, 0xc0, 0x0a, 0xdd, 0xe8, 0x40, 0x00, 0x00, 0x00, 0x40, 0x00, 0x00, 0x0f, 0xc4,
        0x89, 0xe0,
    ];
    let sps = parse_sps(&rbsp).unwrap();
    assert_eq!(sps.profile_idc, profile::BASELINE);
    // 16x16 frame ⇒ 1 MB wide, 1 MB tall.
    assert_eq!(sps.pic_width(), 16);
    assert_eq!(sps.pic_height(), 16);
    assert!(sps.frame_mbs_only_flag);
}
