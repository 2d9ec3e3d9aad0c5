use snarkvid::bitreader::BitReader;
use snarkvid::DecodeError;
#[test]
fn read_bit_walks_bytes_msb_first() {
    // 0xA5 = 1010_0101
    let mut br = BitReader::new(&[0xA5]);
    for expected in [1, 0, 1, 0, 0, 1, 0, 1] {
        assert_eq!(br.read_bit().unwrap(), expected);
    }
    assert!(matches!(br.read_bit(), Err(DecodeError::BitstreamTruncated)));
}

#[test]
fn read_bits_concatenates_across_byte_boundary() {
    // 0xAB, 0xCD = 1010_1011 1100_1101.
    // Reading 12 bits from the start = 1010_1011_1100 = 0xABC.
    let mut br = BitReader::new(&[0xAB, 0xCD]);
    assert_eq!(br.read_bits(12).unwrap(), 0xABC);
    // Then 4 more = 1101 = 0xD.
    assert_eq!(br.read_bits(4).unwrap(), 0xD);
    assert!(matches!(br.read_bits(1), Err(DecodeError::BitstreamTruncated)));
}

#[test]
fn read_bits_zero_returns_zero() {
    let mut br = BitReader::new(&[0xFF]);
    assert_eq!(br.read_bits(0).unwrap(), 0);
    // Cursor unchanged.
    assert_eq!(br.remaining_bits(), 8);
}

#[test]
fn align_to_byte_no_op_when_aligned() {
    let mut br = BitReader::new(&[0xFF, 0x00]);
    br.align_to_byte();
    assert_eq!(br.bit_pos(), 0);
    br.read_bits(8).unwrap();
    br.align_to_byte();
    assert_eq!(br.bit_pos(), 8);
}

#[test]
fn align_to_byte_advances_to_next_byte() {
    let mut br = BitReader::new(&[0xFF, 0x55]);
    br.read_bit().unwrap();
    assert!(!br.is_byte_aligned());
    br.align_to_byte();
    assert!(br.is_byte_aligned());
    assert_eq!(br.bit_pos(), 8);
    // Next 8 bits should be 0x55.
    assert_eq!(br.read_bits(8).unwrap(), 0x55);
}

// Exp-Golomb test vectors from H.264 H.264 Table 9-1.
//
//   value | codeword     | bits
//     0   | 1            |   1
//     1   | 010          |   3
//     2   | 011          |   3
//     3   | 00100        |   5
//     4   | 00101        |   5
//     5   | 00110        |   5
//     6   | 00111        |   5
//     7   | 0001000      |   7
//     8   | 0001001      |   7
fn pack_bits(bits: &[u8]) -> Vec<u8> {
    // Pack a sequence of 0/1 bits into bytes, MSB-first. Pad the
    // last byte with zeros so the reader doesn't run out.
    let mut out = Vec::new();
    let mut acc: u8 = 0;
    let mut count = 0u8;
    for &b in bits {
        acc = (acc << 1) | (b & 1);
        count += 1;
        if count == 8 {
            out.push(acc);
            acc = 0;
            count = 0;
        }
    }
    if count > 0 {
        acc <<= 8 - count;
        out.push(acc);
    }
    out
}

#[test]
fn read_ue_known_values() {
    // 1   = 0
    // 010 = 1
    // 011 = 2
    // 00100 = 3
    // 00101 = 4
    // 0001000 = 7
    let bits = [1, 0,1,0, 0,1,1, 0,0,1,0,0, 0,0,1,0,1, 0,0,0,1,0,0,0];
    let bytes = pack_bits(&bits);
    let mut br = BitReader::new(&bytes);
    assert_eq!(br.read_ue().unwrap(), 0);
    assert_eq!(br.read_ue().unwrap(), 1);
    assert_eq!(br.read_ue().unwrap(), 2);
    assert_eq!(br.read_ue().unwrap(), 3);
    assert_eq!(br.read_ue().unwrap(), 4);
    assert_eq!(br.read_ue().unwrap(), 7);
}

#[test]
fn read_se_known_mapping() {
    // se mapping: ue 0→0, 1→1, 2→-1, 3→2, 4→-2.
    // Build a stream of ue codes 0,1,2,3,4 and read as se.
    let bits = [1, 0,1,0, 0,1,1, 0,0,1,0,0, 0,0,1,0,1];
    let bytes = pack_bits(&bits);
    let mut br = BitReader::new(&bytes);
    assert_eq!(br.read_se().unwrap(), 0);
    assert_eq!(br.read_se().unwrap(), 1);
    assert_eq!(br.read_se().unwrap(), -1);
    assert_eq!(br.read_se().unwrap(), 2);
    assert_eq!(br.read_se().unwrap(), -2);
}

#[test]
fn read_te_x_eq_1_inverts_one_bit() {
    // x=1: 0-bit → returns 1, 1-bit → returns 0.
    let bytes = pack_bits(&[0, 1, 0, 1]);
    let mut br = BitReader::new(&bytes);
    assert_eq!(br.read_te(1).unwrap(), 1);
    assert_eq!(br.read_te(1).unwrap(), 0);
    assert_eq!(br.read_te(1).unwrap(), 1);
    assert_eq!(br.read_te(1).unwrap(), 0);
}

#[test]
fn read_te_x_gt_1_falls_back_to_ue() {
    // x=2 → ue. Codeword "1" → 0; codeword "010" → 1.
    let bytes = pack_bits(&[1, 0, 1, 0]);
    let mut br = BitReader::new(&bytes);
    assert_eq!(br.read_te(2).unwrap(), 0);
    assert_eq!(br.read_te(2).unwrap(), 1);
}

#[test]
fn truncated_stream_propagates_error() {
    // Empty buffer: any read fails.
    let mut br = BitReader::new(&[]);
    assert!(matches!(br.read_bit(), Err(DecodeError::BitstreamTruncated)));
    assert!(matches!(br.read_ue(),  Err(DecodeError::BitstreamTruncated)));
    assert!(matches!(br.read_se(),  Err(DecodeError::BitstreamTruncated)));
}

#[test]
fn pathological_long_zeros_rejected() {
    // 33 zero bits then a 1: zeros=33 > MAX_EXP_GOLOMB_LEADING_ZEROS.
    let mut bits = vec![0u8; 33];
    bits.push(1);
    let bytes = pack_bits(&bits);
    let mut br = BitReader::new(&bytes);
    assert!(matches!(br.read_ue(), Err(DecodeError::ExpGolombTooLong)));
}
