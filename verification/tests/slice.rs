use snarkvid::slice::{SliceType, Sps};
use snarkvid::DecodeError;

#[test]
fn rejects_non_baseline_profile() {
    // Build a synthetic SPS RBSP with profile_idc = 100 (High).
    // Header: 1 byte profile, 1 byte constraint flags, 1 byte level_idc, ...
    let bytes = [100u8, 0u8, 30u8, 0x80, 0x40]; // profile=100, ...
    assert!(matches!(
        Sps::parse(&bytes),
        Err(DecodeError::UnsupportedProfile)
    ));
}

#[test]
fn slice_type_dispatch_handles_plus_5_aliases() {
    // Table 7-6: slice_type = 7 (= 2+5) means "all slices in
    // picture are I". Decoder sees the same I behavior either way.
    for raw in [2u32, 7] {
        assert_eq!(SliceType::from_raw(raw), SliceType::I);
    }
    for raw in [0u32, 5] {
        assert_eq!(SliceType::from_raw(raw), SliceType::P);
    }
}
