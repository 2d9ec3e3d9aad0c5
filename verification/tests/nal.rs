use snarkvid::nal::{nut, strip_emulation_prevention, NalUnit, NalUnitIterator};
use snarkvid::DecodeError;

#[test]
fn iterator_walks_three_byte_and_four_byte_start_codes() {
    // Stream: [0,0,0,1, A,B] [0,0,1, C,D]
    let stream = [0, 0, 0, 1, 0xAA, 0xBB, 0, 0, 1, 0xCC, 0xDD];
    let mut it = NalUnitIterator::new(&stream);
    assert_eq!(it.next().unwrap().unwrap().bytes, &[0xAA, 0xBB]);
    assert_eq!(it.next().unwrap().unwrap().bytes, &[0xCC, 0xDD]);
    assert!(it.next().is_none());
}

#[test]
fn iterator_strips_trailing_zero_padding() {
    // x264 sometimes emits trailing 0x00 bytes between NALs as
    // alignment padding — they must not appear in the payload.
    let stream = [0, 0, 0, 1, 0x67, 0xAB, 0x00, 0x00, 0, 0, 1, 0x68, 0x42];
    let mut it = NalUnitIterator::new(&stream);
    assert_eq!(it.next().unwrap().unwrap().bytes, &[0x67, 0xAB]);
    assert_eq!(it.next().unwrap().unwrap().bytes, &[0x68, 0x42]);
    assert!(it.next().is_none());
}

#[test]
fn nal_unit_extracts_type_and_ref_idc_correctly() {
    // 0x67 = 0110_0111 → forbidden=0, ref_idc=11 (3), type=00111 (7=SPS).
    let nal = NalUnit { bytes: &[0x67, 0x42] };
    assert_eq!(nal.unit_type().unwrap(), nut::SPS);
    assert_eq!(nal.ref_idc().unwrap(), 3);
    assert_eq!(nal.payload(), &[0x42]);

    // 0x65 = 0110_0101 → ref_idc=11, type=00101 (5=IDR slice).
    let nal = NalUnit { bytes: &[0x65, 0xFF] };
    assert_eq!(nal.unit_type().unwrap(), nut::IDR_SLICE);
    assert_eq!(nal.ref_idc().unwrap(), 3);
}

#[test]
fn nal_unit_rejects_forbidden_zero_bit() {
    // Top bit set → forbidden_zero_bit = 1 → reject.
    let nal = NalUnit { bytes: &[0x80] };
    assert!(matches!(nal.unit_type(), Err(DecodeError::InvalidNalFraming)));
}

#[test]
fn strip_no_emulation_bytes_round_trips() {
    let payload = [0x65, 0x88, 0x77, 0x42, 0x10];
    assert_eq!(strip_emulation_prevention(&payload), payload.to_vec());
}

#[test]
fn strip_emulation_byte_in_middle() {
    // Pattern `00 00 03 40` → `00 00 40` after stripping. Matches
    // the `00 00 03 00 40` we saw at offset 12 of the live x264 SPS.
    let payload = [0x67, 0x42, 0xC0, 0x0A, 0xDD, 0xE8, 0x40, 0x00, 0x00, 0x03, 0x00, 0x40];
    let rbsp = strip_emulation_prevention(&payload);
    assert_eq!(rbsp, vec![0x67, 0x42, 0xC0, 0x0A, 0xDD, 0xE8, 0x40, 0x00, 0x00, 0x00, 0x40]);
}

#[test]
fn strip_multiple_emulation_bytes() {
    // `00 00 03 00 00 03 01` → `00 00 00 00 01` (two emulation bytes removed).
    let payload = [0x00, 0x00, 0x03, 0x00, 0x00, 0x03, 0x01];
    let rbsp = strip_emulation_prevention(&payload);
    assert_eq!(rbsp, vec![0x00, 0x00, 0x00, 0x00, 0x01]);
}

#[test]
fn strip_does_not_remove_03_unless_preceded_by_two_zeros() {
    // `01 03 04 03 00` — neither `03` follows `00 00`, so neither is stripped.
    let payload = [0x01, 0x03, 0x04, 0x03, 0x00];
    let rbsp = strip_emulation_prevention(&payload);
    assert_eq!(rbsp, payload.to_vec());
}

