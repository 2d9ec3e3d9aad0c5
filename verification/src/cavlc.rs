//! CAVLC entropy decoding (§9.2): the VLC lookup primitive, coeff_token,
//! level decoding, total_zeros, run_before, and the 4×4 residual block.

use vstd::prelude::*;

use crate::bitreader::{bit_at, bits_value, count_zeros, nbits, p2, BitReader};
use crate::DecodeError;

pub mod tables;


verus! {

// ─────────────────────────────────────────────────────────────────────
// VLC table primitive
// ─────────────────────────────────────────────────────────────────────

/// One VLC table entry: the `codeword_len` low bits of `codeword` are the
/// code, read MSB-first; `value` is what it decodes to.
#[derive(Clone, Copy, Debug)]
pub struct VlcEntry {
    pub codeword: u16,
    pub codeword_len: u8,
    pub value: u16,
}

/// The longest codeword length among the first `n` entries of `t`.
pub open spec fn max_len_prefix(t: Seq<VlcEntry>, n: int) -> int
    decreases n,
{
    if n <= 0 {
        0
    } else {
        let m = max_len_prefix(t, n - 1);
        if t[n - 1].codeword_len as int > m { t[n - 1].codeword_len as int } else { m }
    }
}

/// The value of the first entry of `t[i..]` whose code is the `len`-bit
/// value `code`.
pub open spec fn lookup_from(t: Seq<VlcEntry>, i: int, len: int, code: int) -> Option<u16>
    decreases t.len() - i,
{
    if i < 0 || i >= t.len() {
        None
    } else if t[i].codeword_len as int == len && t[i].codeword as int == code {
        Some(t[i].value)
    } else {
        lookup_from(t, i + 1, len, code)
    }
}

/// Try codeword lengths `len..=max` in turn at bit position `p`.
pub open spec fn vlc_scan(t: Seq<VlcEntry>, s: Seq<u8>, p: int, len: int, max: int) -> (Result<u16, DecodeError>, int)
    decreases max - len + 1,
{
    if len > max || len < 1 {
        (Err(DecodeError::CavlcInvalid), p)
    } else if p + len - 1 >= nbits(s) {
        (Err(DecodeError::BitstreamTruncated), p)
    } else {
        match lookup_from(t, 0, len, bits_value(s, p, len as nat) as int) {
            Some(v) => (Ok(v), p + len),
            None => vlc_scan(t, s, p, len + 1, max),
        }
    }
}

/// What `read_vlc` does with table `t` at bit position `p`: the shortest
/// matching codeword wins (the first table entry among those of that
/// length); on any failure the position does not move.
pub open spec fn vlc_spec(t: Seq<VlcEntry>, s: Seq<u8>, p: int) -> (Result<u16, DecodeError>, int) {
    let m = max_len_prefix(t, t.len() as int);
    if m == 0 || m > 16 {
        (Err(DecodeError::CavlcInvalid), p)
    } else {
        vlc_scan(t, s, p, 1, m)
    }
}

proof fn lemma_max_len_bound(t: Seq<VlcEntry>, n: int)
    ensures
        0 <= max_len_prefix(t, n) <= 255,
    decreases n,
{
    if n > 0 {
        lemma_max_len_bound(t, n - 1);
    }
}

/// Read the next codeword of `table` and return its value, advancing past it.
/// On no match (`CavlcInvalid`) or end of data (`BitstreamTruncated`) the
/// cursor does not move.
pub fn read_vlc(br: &mut BitReader, table: &[VlcEntry]) -> (res: Result<u16, DecodeError>)
    ensures
        final(br).data() == old(br).data(),
        (res, final(br).pos()) == vlc_spec(table@, old(br).data(), old(br).pos()),
{
    let ghost t = table@;
    let ghost s = br.data();
    let ghost p = br.pos();
    let mut max_len: u8 = 0;
    let mut i: usize = 0;
    while i < table.len()
        invariant
            i <= table@.len(),
            max_len as int == max_len_prefix(table@, i as int),
        decreases table@.len() - i,
    {
        if table[i].codeword_len > max_len {
            max_len = table[i].codeword_len;
        }
        i += 1;
    }
    if max_len == 0 || max_len > 16 {
        return Err(DecodeError::CavlcInvalid);
    }
    let mut peek_br = br.fork();
    let mut acc: u32 = 0;
    let mut acc_len: u8 = 0;
    while acc_len < max_len
        invariant
            t == table@,
            br.data() == s,
            br.pos() == p,
            s == old(br).data(),
            p == old(br).pos(),
            peek_br.data() == s,
            peek_br.pos() == p + acc_len,
            1 <= max_len <= 16,
            acc_len <= max_len,
            max_len as int == max_len_prefix(t, t.len() as int),
            acc == bits_value(s, p, acc_len as nat),
            acc < p2(acc_len as nat),
            vlc_spec(t, s, p) == vlc_scan(t, s, p, acc_len + 1, max_len as int),
        decreases max_len - acc_len,
    {
        let bit = match peek_br.read_bit() {
            Ok(b) => b,
            Err(e) => { return Err(e); },
        };
        proof {
            crate::bitreader::lemma_bit_at_bound(s, p + acc_len);
            crate::bitreader::lemma_p2_mono((acc_len + 1) as nat, 16);
            crate::bitreader::lemma_shift_in_bit(acc, bit);
            reveal_with_fuel(p2, 17);
        }
        acc = (acc << 1) | bit;
        acc_len += 1;
        let mut j: usize = 0;
        while j < table.len()
            invariant
                t == table@,
                br.data() == s,
                br.pos() == p,
                s == old(br).data(),
                p == old(br).pos(),
                peek_br.data() == s,
                peek_br.pos() == p + acc_len,
                1 <= acc_len <= max_len <= 16,
                acc == bits_value(s, p, acc_len as nat),
                j <= table@.len(),
                p + acc_len <= nbits(s),
                max_len as int == max_len_prefix(t, t.len() as int),
                vlc_spec(t, s, p) == vlc_scan(t, s, p, acc_len as int, max_len as int),
                lookup_from(t, 0, acc_len as int, acc as int) == lookup_from(t, j as int, acc_len as int, acc as int),
            decreases table@.len() - j,
        {
            let entry = table[j];
            if entry.codeword_len == acc_len && entry.codeword as u32 == acc {
                let _ = br.read_bits(acc_len as u32);
                return Ok(entry.value);
            }
            j += 1;
        }
        assert(lookup_from(t, 0, acc_len as int, acc as int) is None);
    }
    Err(DecodeError::CavlcInvalid)
}

/// Every entry of `t[i..]` decodes to a value of at most `b`.
pub open spec fn values_at_most(t: Seq<VlcEntry>, i: int, b: int) -> bool
    decreases t.len() - i,
{
    if i < 0 || i >= t.len() {
        true
    } else {
        t[i].value <= b && values_at_most(t, i + 1, b)
    }
}

proof fn lemma_lookup_at_most(t: Seq<VlcEntry>, i: int, len: int, code: int, b: int)
    requires
        0 <= i,
        values_at_most(t, i, b),
    ensures
        lookup_from(t, i, len, code) matches Some(v) ==> v <= b,
    decreases t.len() - i,
{
    if i < t.len() {
        lemma_lookup_at_most(t, i + 1, len, code, b);
    }
}

proof fn lemma_scan_at_most(t: Seq<VlcEntry>, s: Seq<u8>, p: int, len: int, max: int, b: int)
    requires
        values_at_most(t, 0, b),
    ensures
        vlc_scan(t, s, p, len, max).0 matches Ok(v) ==> v <= b,
    decreases max - len + 1,
{
    if len <= max && len >= 1 && p + len - 1 < nbits(s) {
        lemma_lookup_at_most(t, 0, len, bits_value(s, p, len as nat) as int, b);
        lemma_scan_at_most(t, s, p, len + 1, max, b);
    }
}

/// A table whose values are all at most `b` never decodes to more than `b`.
pub proof fn lemma_vlc_at_most(t: Seq<VlcEntry>, s: Seq<u8>, p: int, b: int)
    requires
        values_at_most(t, 0, b),
    ensures
        vlc_spec(t, s, p).0 matches Ok(v) ==> v <= b,
{
    lemma_scan_at_most(t, s, p, 1, max_len_prefix(t, t.len() as int), b);
}

/// Every entry of `t[i..]` packs a coeff_token `TotalCoeff * 4 +
/// TrailingOnes` with no more trailing ones than coefficients.
pub open spec fn ct_values_ok(t: Seq<VlcEntry>, i: int) -> bool
    decreases t.len() - i,
{
    if i < 0 || i >= t.len() {
        true
    } else {
        t[i].value % 4 <= t[i].value / 4 && ct_values_ok(t, i + 1)
    }
}

proof fn lemma_lookup_ct_ok(t: Seq<VlcEntry>, i: int, len: int, code: int)
    requires
        0 <= i,
        ct_values_ok(t, i),
    ensures
        lookup_from(t, i, len, code) matches Some(v) ==> v % 4 <= v / 4,
    decreases t.len() - i,
{
    if i < t.len() {
        lemma_lookup_ct_ok(t, i + 1, len, code);
    }
}

proof fn lemma_scan_ct_ok(t: Seq<VlcEntry>, s: Seq<u8>, p: int, len: int, max: int)
    requires
        ct_values_ok(t, 0),
    ensures
        vlc_scan(t, s, p, len, max).0 matches Ok(v) ==> v % 4 <= v / 4,
    decreases max - len + 1,
{
    if len <= max && len >= 1 && p + len - 1 < nbits(s) {
        lemma_lookup_ct_ok(t, 0, len, bits_value(s, p, len as nat) as int);
        lemma_scan_ct_ok(t, s, p, len + 1, max);
    }
}

/// A table of valid coeff_token values only decodes to valid ones.
pub proof fn lemma_vlc_ct_ok(t: Seq<VlcEntry>, s: Seq<u8>, p: int)
    requires
        ct_values_ok(t, 0),
    ensures
        vlc_spec(t, s, p).0 matches Ok(v) ==> v % 4 <= v / 4,
{
    lemma_scan_ct_ok(t, s, p, 1, max_len_prefix(t, t.len() as int));
}

// ─────────────────────────────────────────────────────────────────────
// coeff_token (§9.2.1, Table 9-5)
// ─────────────────────────────────────────────────────────────────────

/// Result of decoding one `coeff_token`.
#[derive(Clone, Copy, Debug, PartialEq, Eq)]
pub struct CoeffToken {
    /// Total number of nonzero coefficients in the block.
    pub total_coeff: u8,
    /// Number of trailing ±1 coefficients.
    pub trailing_ones: u8,
}

/// Unpack `TotalCoeff * 4 + TrailingOnes`.
pub open spec fn ct_of(packed: u16) -> CoeffToken {
    CoeffToken { total_coeff: (packed / 4) as u8, trailing_ones: (packed % 4) as u8 }
}

/// Unpack a table value `TotalCoeff * 4 + TrailingOnes`.
pub fn unpack_ct(packed: u16) -> (r: CoeffToken)
    ensures
        r == ct_of(packed),
{
    CoeffToken { total_coeff: (packed / 4) as u8, trailing_ones: (packed % 4) as u8 }
}

/// Which coeff_token table to use, chosen from nC (§9.2.1.1).
#[derive(Clone, Copy, Debug, PartialEq, Eq)]
pub enum CoeffTokenVariant {
    /// nC ∈ [0, 2)
    Vlc0,
    /// nC ∈ [2, 4)
    Vlc1,
    /// nC ∈ [4, 8)
    Vlc2,
    /// nC ≥ 8 — 6-bit fixed-length code.
    FixedLen6,
    /// Chroma DC, 4:2:0.
    ChromaDc420,
}

impl CoeffTokenVariant {
    /// The table for `nc`; chroma DC overrides the nC dispatch.
    pub fn from_nc(nc: i32, is_chroma_dc: bool) -> (r: Self)
        ensures
            is_chroma_dc ==> r == CoeffTokenVariant::ChromaDc420,
            !is_chroma_dc && nc < 2 ==> r == CoeffTokenVariant::Vlc0,
            !is_chroma_dc && 2 <= nc < 4 ==> r == CoeffTokenVariant::Vlc1,
            !is_chroma_dc && 4 <= nc < 8 ==> r == CoeffTokenVariant::Vlc2,
            !is_chroma_dc && 8 <= nc ==> r == CoeffTokenVariant::FixedLen6,
    {
        if is_chroma_dc {
            return CoeffTokenVariant::ChromaDc420;
        }
        if nc < 2 {
            CoeffTokenVariant::Vlc0
        } else if nc < 4 {
            CoeffTokenVariant::Vlc1
        } else if nc < 8 {
            CoeffTokenVariant::Vlc2
        } else {
            CoeffTokenVariant::FixedLen6
        }
    }
}

/// What the 6-bit fixed-length coeff_token decode does at position `p`.
pub open spec fn fixed6_spec(s: Seq<u8>, p: int) -> (Result<CoeffToken, DecodeError>, int) {
    if p + 6 > nbits(s) {
        (Err(DecodeError::BitstreamTruncated), p)
    } else {
        let b = bits_value(s, p, 6);
        if b == 3 {
            (Ok(CoeffToken { total_coeff: 0, trailing_ones: 0 }), p + 6)
        } else {
            let t1 = b % 4;
            let tc = b / 4 + 1;
            if tc > 16 || t1 > 3 || t1 > tc {
                (Err(DecodeError::CavlcInvalid), p + 6)
            } else {
                (Ok(CoeffToken { total_coeff: tc as u8, trailing_ones: t1 as u8 }), p + 6)
            }
        }
    }
}

/// Map a VLC outcome to a coeff_token outcome.
pub open spec fn ct_outcome(r: (Result<u16, DecodeError>, int)) -> (Result<CoeffToken, DecodeError>, int) {
    match r.0 {
        Ok(v) => (Ok(ct_of(v)), r.1),
        Err(e) => (Err(e), r.1),
    }
}

/// What `decode_coeff_token` does at position `p`.
pub open spec fn coeff_token_spec(variant: CoeffTokenVariant, s: Seq<u8>, p: int) -> (Result<CoeffToken, DecodeError>, int) {
    match variant {
        CoeffTokenVariant::Vlc0 => ct_outcome(vlc_spec(tables::coeff_token_vlc0_spec(), s, p)),
        CoeffTokenVariant::Vlc1 => ct_outcome(vlc_spec(tables::coeff_token_vlc1_spec(), s, p)),
        CoeffTokenVariant::Vlc2 => ct_outcome(vlc_spec(tables::coeff_token_vlc2_spec(), s, p)),
        CoeffTokenVariant::FixedLen6 => fixed6_spec(s, p),
        CoeffTokenVariant::ChromaDc420 => ct_outcome(vlc_spec(tables::coeff_token_chroma_dc_420_spec(), s, p)),
    }
}

proof fn lemma_low_bits_u16(b: u16)
    by (bit_vector)
    ensures
        b & 0b11u16 == b % 4,
        b >> 2u16 == b / 4,
{
}

/// A decoded coeff_token has at most 16 coefficients and 3 trailing ones,
/// and no more trailing ones than coefficients.
pub proof fn lemma_coeff_token_bounds(variant: CoeffTokenVariant, s: Seq<u8>, p: int)
    ensures
        coeff_token_spec(variant, s, p).0 matches Ok(ct) ==> ct.total_coeff <= 16 && ct.trailing_ones <= 3
            && ct.trailing_ones <= ct.total_coeff,
{
    tables::lemma_coeff_token_values();
    tables::lemma_coeff_token_values_ok();
    lemma_vlc_ct_ok(tables::coeff_token_vlc0_spec(), s, p);
    lemma_vlc_ct_ok(tables::coeff_token_vlc1_spec(), s, p);
    lemma_vlc_ct_ok(tables::coeff_token_vlc2_spec(), s, p);
    lemma_vlc_ct_ok(tables::coeff_token_chroma_dc_420_spec(), s, p);
    lemma_vlc_at_most(tables::coeff_token_vlc0_spec(), s, p, 67);
    lemma_vlc_at_most(tables::coeff_token_vlc1_spec(), s, p, 67);
    lemma_vlc_at_most(tables::coeff_token_vlc2_spec(), s, p, 67);
    lemma_vlc_at_most(tables::coeff_token_chroma_dc_420_spec(), s, p, 67);
}

/// 6-bit fixed-length coeff_token (nC ≥ 8): `(TotalCoeff - 1) << 2 |
/// TrailingOnes`, with `000011` meaning (0, 0).
pub fn decode_coeff_token_fixed_len_6(br: &mut BitReader) -> (res: Result<CoeffToken, DecodeError>)
    ensures
        final(br).data() == old(br).data(),
        (res, final(br).pos()) == fixed6_spec(old(br).data(), old(br).pos()),
{
    let bits = match br.read_bits(6) {
        Ok(b) => b as u16,
        Err(e) => { return Err(e); },
    };
    proof {
        crate::bitreader::lemma_bits_value_bound(old(br).data(), old(br).pos(), 6);
        reveal_with_fuel(p2, 7);
        lemma_low_bits_u16(bits);
    }
    if bits == 0b000011 {
        return Ok(CoeffToken { total_coeff: 0, trailing_ones: 0 });
    }
    let trailing_ones = (bits & 0b11) as u8;
    let total_coeff_minus_1 = (bits >> 2) as u8;
    let total_coeff = total_coeff_minus_1 + 1;
    if total_coeff > 16 || trailing_ones > 3 || trailing_ones > total_coeff {
        return Err(DecodeError::CavlcInvalid);
    }
    Ok(CoeffToken { total_coeff, trailing_ones })
}

/// Decode one `coeff_token` with the table `variant` selects.
pub fn decode_coeff_token(br: &mut BitReader, variant: CoeffTokenVariant) -> (res: Result<CoeffToken, DecodeError>)
    ensures
        final(br).data() == old(br).data(),
        (res, final(br).pos()) == coeff_token_spec(variant, old(br).data(), old(br).pos()),
        res matches Ok(ct) ==> ct.total_coeff <= 16 && ct.trailing_ones <= 3 && ct.trailing_ones <= ct.total_coeff,
{
    proof { lemma_coeff_token_bounds(variant, br.data(), br.pos()); }
    match variant {
        CoeffTokenVariant::Vlc0 => match read_vlc(br, tables::coeff_token_vlc0()) {
            Ok(v) => Ok(unpack_ct(v)),
            Err(e) => Err(e),
        },
        CoeffTokenVariant::Vlc1 => match read_vlc(br, tables::coeff_token_vlc1()) {
            Ok(v) => Ok(unpack_ct(v)),
            Err(e) => Err(e),
        },
        CoeffTokenVariant::Vlc2 => match read_vlc(br, tables::coeff_token_vlc2()) {
            Ok(v) => Ok(unpack_ct(v)),
            Err(e) => Err(e),
        },
        CoeffTokenVariant::FixedLen6 => decode_coeff_token_fixed_len_6(br),
        CoeffTokenVariant::ChromaDc420 => match read_vlc(br, tables::coeff_token_chroma_dc_420()) {
            Ok(v) => Ok(unpack_ct(v)),
            Err(e) => Err(e),
        },
    }
}

// ─────────────────────────────────────────────────────────────────────
// Level decoding (§9.2.2)
// ─────────────────────────────────────────────────────────────────────

/// What `read_level_prefix` does at position `p`: the number of leading
/// zero bits before a one bit, at most 32.
pub open spec fn level_prefix_spec(s: Seq<u8>, p: int) -> (Result<u32, DecodeError>, int) {
    let z = count_zeros(s, p, 33);
    if z == 33 {
        (Err(DecodeError::CavlcInvalid), p + 33)
    } else if p + z >= nbits(s) {
        (Err(DecodeError::BitstreamTruncated), nbits(s))
    } else {
        (Ok(z as u32), p + z + 1)
    }
}

/// Count up to 32 zero bits before a one bit.
pub fn read_level_prefix(br: &mut BitReader) -> (res: Result<u32, DecodeError>)
    ensures
        final(br).data() == old(br).data(),
        (res, final(br).pos()) == level_prefix_spec(old(br).data(), old(br).pos()),
        res matches Ok(v) ==> v <= 32,
{
    let ghost s = br.data();
    let ghost p0 = br.pos();
    // The cursor lies inside the data.
    let _start = br.bit_pos();
    let mut zeros: u32 = 0;
    loop
        invariant_except_break
            br.data() == s,
            s == old(br).data(),
            p0 == old(br).pos(),
            0 <= p0,
            zeros <= 32,
            br.pos() == p0 + zeros,
            forall|j: int| p0 <= j < p0 + zeros ==> bit_at(s, j) == 0,
            p0 + zeros <= nbits(s),
        ensures
            br.data() == s,
            s == old(br).data(),
            p0 == old(br).pos(),
            zeros <= 32,
            br.pos() == p0 + zeros + 1,
            forall|j: int| p0 <= j < p0 + zeros ==> bit_at(s, j) == 0,
            p0 + zeros < nbits(s),
            bit_at(s, p0 + zeros) == 1,
        decreases 33 - zeros,
    {
        let b = br.read_bit();
        match b {
            Ok(bit) => {
                proof { crate::bitreader::lemma_bit_at_bound(s, p0 + zeros); }
                if bit != 0 {
                    break;
                }
                if zeros == 32 {
                    proof { crate::bitreader::lemma_count_zeros_full(s, p0, 33); }
                    return Err(DecodeError::CavlcInvalid);
                }
                zeros = zeros + 1;
            },
            Err(e) => {
                proof { crate::bitreader::lemma_count_zeros_to_end(s, p0, zeros as nat, 33); }
                return Err(e);
            },
        }
    }
    proof { crate::bitreader::lemma_count_zeros_exact(s, p0, zeros as nat, 33); }
    Ok(zeros)
}

/// Sixteen zeros.
pub open spec fn zeros16() -> Seq<i32> {
    Seq::new(16, |k: int| 0i32)
}

/// Read the trailing-one sign bits `i..t1`, storing ±1 at `tc - 1 - i`.
pub open spec fn signs_loop(s: Seq<u8>, p: int, i: int, t1: int, tc: int, levels: Seq<i32>) -> (Result<Seq<i32>, DecodeError>, int)
    decreases t1 - i,
{
    if i >= t1 {
        (Ok(levels), p)
    } else if p >= nbits(s) {
        (Err(DecodeError::BitstreamTruncated), p)
    } else {
        let v: i32 = if bit_at(s, p) == 1 { -1i32 } else { 1i32 };
        signs_loop(s, p + 1, i + 1, t1, tc, levels.update(tc - 1 - i, v))
    }
}

/// levelSuffixSize for a prefix and the current suffixLength.
pub open spec fn suffix_size(prefix: int, sl: int) -> int {
    if prefix < 14 {
        sl
    } else if prefix == 14 {
        if sl == 0 { 4 } else { sl }
    } else {
        12
    }
}

/// levelCode for the `k`-th non-trailing-one level.
pub open spec fn level_code(prefix: int, suffix: int, sl: int, k: int, t1: int) -> int {
    (if prefix < 15 { prefix } else { 15 }) * p2(sl as nat) + suffix
        + (if prefix >= 14 && sl == 0 { 15int } else { 0int })
        + (if prefix >= 15 { 4096int } else { 0int })
        + (if k == 0 && t1 < 3 { 2int } else { 0int })
}

/// The signed level a levelCode stands for.
pub open spec fn level_of(lc: int) -> int {
    if lc % 2 == 0 { (lc + 2) / 2 } else { -((lc + 1) / 2) }
}

/// The level a levelCode stands for is the one the encoder maps back to
/// that code (§9.2.2.1): a positive level `l` has code `2l − 2`, a
/// negative one `−2l − 1`; no code stands for 0.
pub proof fn lemma_level_of_inverts_code(lc: int)
    requires
        lc >= 0,
    ensures
        level_of(lc) != 0,
        level_of(lc) > 0 ==> lc == 2 * level_of(lc) - 2,
        level_of(lc) < 0 ==> lc == -2 * level_of(lc) - 1,
{
}

/// suffixLength after decoding `level` with suffixLength `sl`.
pub open spec fn next_suffix_length(sl: int, level: int) -> int {
    let sl1 = if sl == 0 { 1 } else { sl };
    let mag = if level < 0 { -level } else { level };
    if mag > 3 * p2((sl1 - 1) as nat) && sl1 < 6 { sl1 + 1 } else { sl1 }
}

/// One level at position `p` with suffixLength `sl` (the `k`-th
/// non-trailing-one level): the level, the next suffixLength, and the
/// position afterwards.
pub open spec fn level_step(s: Seq<u8>, p: int, sl: int, k: int, t1: int) -> (Result<(int, int), DecodeError>, int) {
    let (pr, p1) = level_prefix_spec(s, p);
    match pr {
        Err(e) => (Err(e), p1),
        Ok(prefix) => {
            let size = suffix_size(prefix as int, sl);
            if size > 0 && p1 + size > nbits(s) {
                (Err(DecodeError::BitstreamTruncated), p1)
            } else {
                let suffix = if size > 0 { bits_value(s, p1, size as nat) as int } else { 0int };
                let q = if size > 0 { p1 + size } else { p1 };
                let level = level_of(level_code(prefix as int, suffix, sl, k, t1));
                (Ok((level, next_suffix_length(sl, level))), q)
            }
        },
    }
}

/// suffixLength after a decoded level (§9.2.2.1): a suffixLength of 0
/// counts as 1, and it then rises by one exactly when the level's
/// magnitude exceeds 3, 6, 12, 24 or 48 at suffixLength 1, 2, 3, 4 or 5;
/// at 6 it stays.
pub proof fn lemma_level_step_suffix_length(s: Seq<u8>, p: int, sl: int, k: int, t1: int)
    requires
        0 <= sl <= 6,
    ensures
        level_step(s, p, sl, k, t1).0 matches Ok((level, sl2)) ==> ({
            let sl1 = if sl == 0 { 1int } else { sl };
            let mag = if level < 0 { -level } else { level };
            let limit = if sl1 == 1 { 3int } else if sl1 == 2 { 6int } else if sl1 == 3 { 12int } else if sl1 == 4 {
                24int
            } else {
                48int
            };
            sl2 == if sl1 < 6 && mag > limit { sl1 + 1 } else { sl1 }
        }),
{
    lemma_p2_small();
}

/// Decode levels `k..n` (stored at `n - 1 - k`), starting at position `p`
/// with suffixLength `sl`.
pub open spec fn levels_loop(s: Seq<u8>, p: int, sl: int, k: int, n: int, t1: int, levels: Seq<i32>) -> (Result<Seq<i32>, DecodeError>, int)
    decreases n - k,
{
    if k >= n {
        (Ok(levels), p)
    } else {
        let (r, q) = level_step(s, p, sl, k, t1);
        match r {
            Err(e) => (Err(e), q),
            Ok((level, sl2)) => levels_loop(s, q, sl2, k + 1, n, t1, levels.update(n - 1 - k, level as i32)),
        }
    }
}

/// What `decode_levels` does at position `p`.
pub open spec fn levels_spec(s: Seq<u8>, p: int, tc: int, t1: int) -> (Result<Seq<i32>, DecodeError>, int) {
    if tc == 0 {
        (Ok(zeros16()), p)
    } else if t1 > tc || t1 > 3 {
        (Err(DecodeError::CavlcInvalid), p)
    } else {
        let (r, q) = signs_loop(s, p, 0, t1, tc, zeros16());
        match r {
            Err(e) => (Err(e), q),
            Ok(lv) => {
                if tc == t1 {
                    (Ok(lv), q)
                } else {
                    levels_loop(s, q, if tc > 10 && t1 < 3 { 1 } else { 0 }, 0, tc - t1, t1, lv)
                }
            },
        }
    }
}

proof fn lemma_level_bits(prefix15: u32, sl: u32, lc: i32, sh: u32)
    by (bit_vector)
    ensures
        prefix15 <= 15u32 && sl <= 6u32 ==> {
            &&& sl == 0u32 ==> prefix15 << sl == prefix15
            &&& sl == 1u32 ==> prefix15 << sl == prefix15 * 2
            &&& sl == 2u32 ==> prefix15 << sl == prefix15 * 4
            &&& sl == 3u32 ==> prefix15 << sl == prefix15 * 8
            &&& sl == 4u32 ==> prefix15 << sl == prefix15 * 16
            &&& sl == 5u32 ==> prefix15 << sl == prefix15 * 32
            &&& sl == 6u32 ==> prefix15 << sl == prefix15 * 64
        },
        lc >= 0i32 ==> (lc & 1i32 == 0i32 <==> lc % 2 == 0),
        1i32 << 12i32 == 4096i32,
        sh == 0u32 ==> 3u32 << sh == 3,
        sh == 1u32 ==> 3u32 << sh == 6,
        sh == 2u32 ==> 3u32 << sh == 12,
        sh == 3u32 ==> 3u32 << sh == 24,
        sh == 4u32 ==> 3u32 << sh == 48,
        sh == 5u32 ==> 3u32 << sh == 96,
{
}

proof fn lemma_p2_small()
    ensures
        p2(0) == 1,
        p2(1) == 2,
        p2(2) == 4,
        p2(3) == 8,
        p2(4) == 16,
        p2(5) == 32,
        p2(6) == 64,
{
    reveal_with_fuel(p2, 7);
}

fn compute_level_code(level_prefix: u32, level_suffix: u32, suffix_length: u32, k: usize, trailing_ones: u8) -> (lc: i32)
    requires
        level_prefix <= 32,
        level_suffix < 4096,
        suffix_length <= 6,
    ensures
        lc as int == level_code(level_prefix as int, level_suffix as int, suffix_length as int, k as int, trailing_ones as int),
        0 <= lc < 10000,
{
    let prefix15: u32 = if level_prefix < 15 { level_prefix } else { 15 };
    let shifted: u32 = prefix15 << suffix_length;
    assert(shifted as int == prefix15 as int * p2(suffix_length as nat) && p2(suffix_length as nat) <= 64) by {
        lemma_level_bits(prefix15, suffix_length, 0, 0);
        lemma_p2_small();
        if suffix_length == 0 {
        } else if suffix_length == 1 {
        } else if suffix_length == 2 {
        } else if suffix_length == 3 {
        } else if suffix_length == 4 {
        } else if suffix_length == 5 {
        } else {
        }
    }
    assert(shifted <= 960) by (nonlinear_arith)
        requires
            shifted as int == prefix15 as int * p2(suffix_length as nat),
            prefix15 <= 15,
            p2(suffix_length as nat) <= 64;
    let mut level_code: i32 = shifted as i32 + level_suffix as i32;
    if level_prefix >= 14 && suffix_length == 0 {
        level_code += 15;
    }
    if level_prefix >= 15 {
        proof { lemma_level_bits(0, 0, 0, 0); }
        level_code += 1 << 12;
    }
    if k == 0 && trailing_ones < 3 {
        level_code += 2;
    }
    level_code
}

fn level_from_code(level_code: i32) -> (level: i32)
    requires
        0 <= level_code < 10000,
    ensures
        level as int == level_of(level_code as int),
        -5001 < level < 5002,
{
    proof {
        lemma_level_bits(0, 0, level_code, 0);
        crate::transform::lemma_asr1((level_code + 2) as i32);
        crate::transform::lemma_asr1((level_code + 1) as i32);
    }
    if level_code & 1 == 0 {
        (level_code + 2) >> 1
    } else {
        -((level_code + 1) >> 1)
    }
}

fn next_suffix_len(suffix_length: u32, level: i32) -> (sl: u32)
    requires
        suffix_length <= 6,
        -5001 < level < 5002,
    ensures
        sl as int == next_suffix_length(suffix_length as int, level as int),
        1 <= sl <= 6,
{
    let mut sl = suffix_length;
    if sl == 0 {
        sl = 1;
    }
    let mag: u32 = if level < 0 { (-level) as u32 } else { level as u32 };
    proof {
        lemma_level_bits(0, 0, 0, (sl - 1) as u32);
        reveal_with_fuel(p2, 7);
    }
    if mag > (3u32 << (sl - 1)) && sl < 6 {
        sl += 1;
    }
    sl
}

/// Decode the `k`-th non-trailing-one level with suffixLength
/// `suffix_length`; returns the level and the next suffixLength.
fn decode_one_level(br: &mut BitReader, suffix_length: u32, k: usize, trailing_ones: u8) -> (res: Result<(i32, u32), DecodeError>)
    requires
        suffix_length <= 6,
        trailing_ones <= 3,
    ensures
        final(br).data() == old(br).data(),
        ({
            let (r, q) = level_step(old(br).data(), old(br).pos(), suffix_length as int, k as int, trailing_ones as int);
            &&& final(br).pos() == q
            &&& match r {
                Ok((level, sl2)) => res == Ok::<(i32, u32), DecodeError>((level as i32, sl2 as u32)) && -5001 < level < 5002 && 1 <= sl2 <= 6,
                Err(e) => res == Err::<(i32, u32), DecodeError>(e),
            }
        }),
{
    let ghost s = br.data();
    let level_prefix = match read_level_prefix(br) {
        Ok(v) => v,
        Err(e) => { return Err(e); },
    };
    let level_suffix_size: u32 = if level_prefix < 14 {
        suffix_length
    } else if level_prefix == 14 {
        if suffix_length == 0 { 4 } else { suffix_length }
    } else {
        12
    };
    let level_suffix: u32 = if level_suffix_size > 0 {
        match br.read_bits(level_suffix_size) {
            Ok(v) => v,
            Err(e) => { return Err(e); },
        }
    } else {
        0
    };
    proof {
        crate::bitreader::lemma_bits_value_bound(s, br.pos() - level_suffix_size, level_suffix_size as nat);
        crate::bitreader::lemma_p2_mono(level_suffix_size as nat, 12);
        reveal_with_fuel(p2, 13);
    }
    let level_code = compute_level_code(level_prefix, level_suffix, suffix_length, k, trailing_ones);
    let level = level_from_code(level_code);
    let sl = next_suffix_len(suffix_length, level);
    Ok((level, sl))
}

/// Decode the `total_coeff - trailing_ones` non-trailing-one levels after
/// the trailing-one signs. Levels land at indices `0..total_coeff`, the
/// highest-frequency one at `total_coeff - 1`.
pub fn decode_levels(br: &mut BitReader, total_coeff: u8, trailing_ones: u8) -> (res: Result<[i32; 16], DecodeError>)
    requires
        total_coeff <= 16,
    ensures
        final(br).data() == old(br).data(),
        ({
            let (r, q) = levels_spec(old(br).data(), old(br).pos(), total_coeff as int, trailing_ones as int);
            &&& final(br).pos() == q
            &&& match r {
                Ok(lv) => res matches Ok(a) && a@ == lv,
                Err(e) => res == Err::<[i32; 16], DecodeError>(e),
            }
        }),
{
    let ghost s = br.data();
    let ghost p0 = br.pos();
    let mut levels = [0i32; 16];
    assert(levels@ =~= zeros16());
    if total_coeff == 0 {
        return Ok(levels);
    }
    if trailing_ones > total_coeff || trailing_ones > 3 {
        return Err(DecodeError::CavlcInvalid);
    }
    let ghost tc = total_coeff as int;
    let ghost t1 = trailing_ones as int;
    let mut i: usize = 0;
    while i < trailing_ones as usize
        invariant
            br.data() == s,
            s == old(br).data(),
            p0 == old(br).pos(),
            tc == total_coeff,
            t1 == trailing_ones,
            1 <= total_coeff <= 16,
            trailing_ones <= total_coeff,
            trailing_ones <= 3,
            i <= trailing_ones,
            signs_loop(s, p0, 0, t1, tc, zeros16()) == signs_loop(s, br.pos(), i as int, t1, tc, levels@),
        decreases trailing_ones - i,
    {
        let sign = match br.read_bit() {
            Ok(b) => b,
            Err(e) => { return Err(e); },
        };
        let idx = (total_coeff - 1) as usize - i;
        levels[idx] = if sign == 1 { -1 } else { 1 };
        i += 1;
    }
    let n_levels = (total_coeff - trailing_ones) as usize;
    if n_levels == 0 {
        return Ok(levels);
    }
    let mut suffix_length: u32 = if total_coeff > 10 && trailing_ones < 3 { 1 } else { 0 };
    let ghost q0 = br.pos();
    let mut k: usize = 0;
    while k < n_levels
        invariant
            br.data() == s,
            s == old(br).data(),
            p0 == old(br).pos(),
            tc == total_coeff,
            t1 == trailing_ones,
            1 <= total_coeff <= 16,
            trailing_ones <= total_coeff,
            trailing_ones <= 3,
            n_levels == total_coeff - trailing_ones,
            k <= n_levels,
            suffix_length <= 6,
            signs_loop(s, p0, 0, t1, tc, zeros16()).0 is Ok,
            levels_spec(s, p0, tc, t1) == levels_loop(s, br.pos(), suffix_length as int, k as int, n_levels as int, t1, levels@),
        decreases n_levels - k,
    {
        let (level, new_sl) = match decode_one_level(br, suffix_length, k, trailing_ones) {
            Ok(v) => v,
            Err(e) => { return Err(e); },
        };
        let idx = (total_coeff - trailing_ones) as usize - 1 - k;
        levels[idx] = level;
        suffix_length = new_sl;
        k += 1;
    }
    Ok(levels)
}

// ─────────────────────────────────────────────────────────────────────
// total_zeros and run_before (§9.2.3)
// ─────────────────────────────────────────────────────────────────────

fn total_zeros_table(total_coeff: u8) -> (r: Result<&'static [VlcEntry], DecodeError>)
    ensures
        match r {
            Ok(t) => 1 <= total_coeff <= 15 && t@ == tables::tz_table_spec(total_coeff as int),
            Err(e) => !(1 <= total_coeff <= 15) && e == DecodeError::CavlcInvalid,
        },
{
    match total_coeff {
        1 => Ok(tables::tz_tc1()),
        2 => Ok(tables::tz_tc2()),
        3 => Ok(tables::tz_tc3()),
        4 => Ok(tables::tz_tc4()),
        5 => Ok(tables::tz_tc5()),
        6 => Ok(tables::tz_tc6()),
        7 => Ok(tables::tz_tc7()),
        8 => Ok(tables::tz_tc8()),
        9 => Ok(tables::tz_tc9()),
        10 => Ok(tables::tz_tc10()),
        11 => Ok(tables::tz_tc11()),
        12 => Ok(tables::tz_tc12()),
        13 => Ok(tables::tz_tc13()),
        14 => Ok(tables::tz_tc14()),
        15 => Ok(tables::tz_tc15()),
        _ => Err(DecodeError::CavlcInvalid),
    }
}

/// What `decode_total_zeros_4x4` does at position `p`: no bits are read
/// when TotalCoeff is 0 or 16.
pub open spec fn total_zeros_spec(tc: int, s: Seq<u8>, p: int) -> (Result<u8, DecodeError>, int) {
    if tc == 0 || tc >= 16 {
        (Ok(0u8), p)
    } else {
        let (r, q) = vlc_spec(tables::tz_table_spec(tc), s, p);
        match r {
            Ok(v) => (Ok(v as u8), q),
            Err(e) => (Err(e), q),
        }
    }
}

/// Decode `total_zeros` for a 4×4 luma residual block.
pub fn decode_total_zeros_4x4(br: &mut BitReader, total_coeff: u8) -> (res: Result<u8, DecodeError>)
    ensures
        final(br).data() == old(br).data(),
        (res, final(br).pos()) == total_zeros_spec(total_coeff as int, old(br).data(), old(br).pos()),
        res matches Ok(tz) ==> total_coeff + tz <= 16 || total_coeff > 16,
{
    if total_coeff == 0 || total_coeff >= 16 {
        return Ok(0);
    }
    proof {
        tables::lemma_total_zeros_values(total_coeff as int);
        lemma_vlc_at_most(tables::tz_table_spec(total_coeff as int), br.data(), br.pos(), 16 - total_coeff);
    }
    let table = match total_zeros_table(total_coeff) {
        Ok(t) => t,
        Err(e) => { return Err(e); },
    };
    let v = match read_vlc(br, table) {
        Ok(v) => v,
        Err(e) => { return Err(e); },
    };
    Ok(v as u8)
}

fn run_before_table(zeros_left: u8) -> (r: Result<&'static [VlcEntry], DecodeError>)
    ensures
        match r {
            Ok(t) => 1 <= zeros_left <= 14 && t@ == tables::rb_table_spec(zeros_left as int),
            Err(e) => !(1 <= zeros_left <= 14) && e == DecodeError::CavlcInvalid,
        },
{
    match zeros_left {
        1 => Ok(tables::rb_zl1()),
        2 => Ok(tables::rb_zl2()),
        3 => Ok(tables::rb_zl3()),
        4 => Ok(tables::rb_zl4()),
        5 => Ok(tables::rb_zl5()),
        6 => Ok(tables::rb_zl6()),
        7..=14 => Ok(tables::rb_zl_ge7()),
        _ => Err(DecodeError::CavlcInvalid),
    }
}

/// What `decode_run_before` does at position `p` with `zl` zeros left:
/// the decoded run, capped at `zl`.
pub open spec fn run_before_spec(zl: int, s: Seq<u8>, p: int) -> (Result<u8, DecodeError>, int) {
    if zl == 0 {
        (Ok(0u8), p)
    } else if zl > 14 || zl < 0 {
        (Err(DecodeError::CavlcInvalid), p)
    } else {
        let (r, q) = vlc_spec(tables::rb_table_spec(zl), s, p);
        match r {
            Ok(v) => (Ok(if (v as u8) < zl { v as u8 } else { zl as u8 }), q),
            Err(e) => (Err(e), q),
        }
    }
}

/// Decode one `run_before` given the remaining `zeros_left`: the number of
/// zeros before the next nonzero coefficient, never more than `zeros_left`.
pub fn decode_run_before(br: &mut BitReader, zeros_left: u8) -> (res: Result<u8, DecodeError>)
    ensures
        final(br).data() == old(br).data(),
        (res, final(br).pos()) == run_before_spec(zeros_left as int, old(br).data(), old(br).pos()),
        res matches Ok(r) ==> r <= zeros_left,
{
    if zeros_left == 0 {
        return Ok(0);
    }
    let t = match run_before_table(zeros_left) {
        Ok(t) => t,
        Err(e) => { return Err(e); },
    };
    let v = match read_vlc(br, t) {
        Ok(v) => v,
        Err(e) => { return Err(e); },
    };
    let r = v as u8;
    Ok(if r < zeros_left { r } else { zeros_left })
}

// ─────────────────────────────────────────────────────────────────────
// The 4×4 residual block
// ─────────────────────────────────────────────────────────────────────

/// Inverse zig-zag scan order for a 4×4 block: entry `k` is the raster
/// index of the `k`-th coefficient in scan order.
pub open spec fn zigzag_spec() -> Seq<usize> {
    seq![0usize, 1, 4, 8, 5, 2, 3, 6, 9, 12, 13, 10, 7, 11, 14, 15]
}

/// The scan position of each raster index (the inverse permutation).
pub open spec fn unzigzag_spec() -> Seq<int> {
    seq![0int, 1, 5, 6, 2, 4, 7, 12, 3, 8, 11, 13, 9, 10, 14, 15]
}

/// Zig-zag order turned into raster order.
pub open spec fn raster_of(zz: Seq<i32>) -> Seq<i32> {
    Seq::new(16, |r: int| zz[unzigzag_spec()[r]])
}

/// The two tables are inverse permutations of 0..16.
pub proof fn lemma_zigzag_permutation()
    ensures
        forall|k: int| 0 <= k < 16 ==> #[trigger] zigzag_spec()[k] < 16 && unzigzag_spec()[zigzag_spec()[k] as int] == k,
        forall|r: int| 0 <= r < 16 ==> 0 <= #[trigger] unzigzag_spec()[r] < 16 && zigzag_spec()[unzigzag_spec()[r]] == r,
{
    assert forall|k: int| 0 <= k < 16 implies #[trigger] zigzag_spec()[k] < 16 && unzigzag_spec()[zigzag_spec()[k] as int] == k by {
        if k == 0 {} else if k == 1 {} else if k == 2 {} else if k == 3 {}
        else if k == 4 {} else if k == 5 {} else if k == 6 {} else if k == 7 {}
        else if k == 8 {} else if k == 9 {} else if k == 10 {} else if k == 11 {}
        else if k == 12 {} else if k == 13 {} else if k == 14 {} else {}
    }
    assert forall|r: int| 0 <= r < 16 implies 0 <= #[trigger] unzigzag_spec()[r] < 16 && zigzag_spec()[unzigzag_spec()[r]] == r by {
        if r == 0 {} else if r == 1 {} else if r == 2 {} else if r == 3 {}
        else if r == 4 {} else if r == 5 {} else if r == 6 {} else if r == 7 {}
        else if r == 8 {} else if r == 9 {} else if r == 10 {} else if r == 11 {}
        else if r == 12 {} else if r == 13 {} else if r == 14 {} else {}
    }
}

/// The zig-zag scan walks the anti-diagonals of the 4×4 block in order,
/// starting at the DC: each step stays on its anti-diagonal (`x + y`) or
/// moves to the next one, and along an anti-diagonal it goes up and right
/// on even ones and down and left on odd ones (§8.5.6, Figure 8-8).
pub proof fn lemma_zigzag_walks_antidiagonals()
    ensures
        zigzag_spec()[0] == 0,
        forall|k: int|
            0 <= k < 15 ==> {
                let a = #[trigger] zigzag_spec()[k] as int;
                let b = zigzag_spec()[k + 1] as int;
                let d = a % 4 + a / 4;
                let e = b % 4 + b / 4;
                &&& d <= e <= d + 1
                &&& e == d ==> b % 4 == a % 4 + (if d % 2 == 0 { 1int } else { -1int })
            },
{
    assert forall|k: int| 0 <= k < 15 implies {
        let a = #[trigger] zigzag_spec()[k] as int;
        let b = zigzag_spec()[k + 1] as int;
        let d = a % 4 + a / 4;
        let e = b % 4 + b / 4;
        &&& d <= e <= d + 1
        &&& e == d ==> b % 4 == a % 4 + (if d % 2 == 0 { 1int } else { -1int })
    } by {
        if k == 0 {} else if k == 1 {} else if k == 2 {} else if k == 3 {}
        else if k == 4 {} else if k == 5 {} else if k == 6 {} else if k == 7 {}
        else if k == 8 {} else if k == 9 {} else if k == 10 {} else if k == 11 {}
        else if k == 12 {} else if k == 13 {} else {}
    }
}

/// The inverse zig-zag scan table.
pub fn zigzag_4x4() -> (z: [usize; 16])
    ensures
        z@ == zigzag_spec(),
{
    let z: [usize; 16] = [0, 1, 4, 8, 5, 2, 3, 6, 9, 12, 13, 10, 7, 11, 14, 15];
    assert(z@ =~= zigzag_spec());
    z
}

/// The runs of zeros for the levels `j..tc` in reading order, read from
/// position `p` with `zl` zeros left: a `run_before` for every level but
/// the last (none is read once no zeros are left), and whatever zeros are
/// still left for the last.
pub open spec fn runs_spec(s: Seq<u8>, p: int, j: int, tc: int, zl: int) -> (Result<Seq<int>, DecodeError>, int)
    decreases tc - j,
{
    if j >= tc {
        (Ok(Seq::<int>::empty()), p)
    } else if j == tc - 1 {
        (Ok(seq![zl]), p)
    } else {
        let (rr, q) = run_before_spec(zl, s, p);
        match rr {
            Err(e) => (Err(e), q),
            Ok(r) => {
                let (rest, q2) = runs_spec(s, q, j + 1, tc, zl - r);
                match rest {
                    Err(e) => (Err(e), q2),
                    Ok(t) => (Ok(seq![r as int] + t), q2),
                }
            },
        }
    }
}

/// The sum of the first `j` runs.
pub open spec fn run_total(runs: Seq<int>, j: int) -> int
    decreases j,
{
    if j <= 0 {
        0
    } else {
        run_total(runs, j - 1) + runs[j - 1]
    }
}

/// The zig-zag position of the `j`-th level in reading order: the first
/// (highest frequency) sits at `tc + tz - 1`, and each one after sits
/// `run + 1` below the one before it.
pub open spec fn level_position(runs: Seq<int>, tc: int, tz: int, j: int) -> int {
    tc + tz - 1 - j - run_total(runs, j)
}

/// The 16 coefficients in zig-zag order: the `j`-th level read (that is
/// `lv[tc - 1 - j]`, the levels being held lowest frequency first) at its
/// level position, and 0 at every other position.
pub open spec fn place_levels(lv: Seq<i32>, runs: Seq<int>, tc: int, tz: int) -> Seq<i32> {
    Seq::new(
        16,
        |k: int|
            if exists|j: int| 0 <= j < tc && #[trigger] level_position(runs, tc, tz, j) == k {
                lv[tc - 1 - choose|j: int| 0 <= j < tc && #[trigger] level_position(runs, tc, tz, j) == k]
            } else {
                0i32
            },
    )
}

/// What `decode_residual_block_4x4_with_tc` does at position `p`: the
/// TotalCoeff and the 16 levels in raster order.
pub open spec fn residual_spec(variant: CoeffTokenVariant, s: Seq<u8>, p: int) -> (Result<(u8, Seq<i32>), DecodeError>, int) {
    let (cr, p1) = coeff_token_spec(variant, s, p);
    match cr {
        Err(e) => (Err(e), p1),
        Ok(ct) => {
            let tc = ct.total_coeff as int;
            let (lr, p2) = levels_spec(s, p1, tc, ct.trailing_ones as int);
            match lr {
                Err(e) => (Err(e), p2),
                Ok(lv) => {
                    let (tr, p3) = total_zeros_spec(tc, s, p2);
                    match tr {
                        Err(e) => (Err(e), p3),
                        Ok(tz) => {
                            let (rr, p4) = runs_spec(s, p3, 0, tc, tz as int);
                            match rr {
                                Err(e) => (Err(e), p4),
                                Ok(runs) => (Ok((ct.total_coeff, raster_of(place_levels(lv, runs, tc, tz as int)))), p4),
                            }
                        },
                    }
                },
            }
        },
    }
}

// ─────────────────────────────────────────────────────────────────────
// Placing the levels
// ─────────────────────────────────────────────────────────────────────

/// The runs read from `runs_spec` are one per level, not negative, and
/// add up to the zeros that were left.
proof fn lemma_runs_spec(s: Seq<u8>, p: int, j: int, tc: int, zl: int)
    requires
        0 <= j < tc,
        0 <= zl,
    ensures
        runs_spec(s, p, j, tc, zl).0 matches Ok(runs) ==> runs.len() == tc - j && (forall|m: int|
            0 <= m < runs.len() ==> #[trigger] runs[m] >= 0) && run_total(runs, tc - j) == zl,
    decreases tc - j,
{
    if j < tc - 1 {
        let (rr, q) = run_before_spec(zl, s, p);
        if let Ok(r) = rr {
            assert(r <= zl);
            lemma_runs_spec(s, q, j + 1, tc, zl - r);
            let (rest, _) = runs_spec(s, q, j + 1, tc, zl - r);
            if let Ok(t) = rest {
                let runs = seq![r as int] + t;
                lemma_run_total_front(r as int, t, tc - j - 1);
                assert(run_total(runs, tc - j) == r + run_total(t, tc - j - 1));
            }
        }
    } else {
        assert(run_total(seq![zl], 1) == run_total(seq![zl], 0) + zl);
    }
}

proof fn lemma_run_total_front(x: int, t: Seq<int>, n: int)
    requires
        0 <= n <= t.len(),
    ensures
        run_total(seq![x] + t, n + 1) == x + run_total(t, n),
    decreases n,
{
    let u = seq![x] + t;
    if n == 0 {
        assert(run_total(u, 1) == run_total(u, 0) + u[0]);
    } else {
        lemma_run_total_front(x, t, n - 1);
        assert(u[n] == t[n - 1]);
    }
}

/// Runs past the first `m` do not change the sum of the first `m`.
proof fn lemma_run_total_push(d: Seq<int>, x: int, m: int)
    requires
        0 <= m <= d.len(),
    ensures
        run_total(d.push(x), m) == run_total(d, m),
    decreases m,
{
    if m > 0 {
        lemma_run_total_push(d, x, m - 1);
        assert(d.push(x)[m - 1] == d[m - 1]);
    }
}

/// The levels `0..j` in reading order written into zeros at their
/// positions, one after another.
spec fn placed_upto(lv: Seq<i32>, runs: Seq<int>, tc: int, tz: int, j: int) -> Seq<i32>
    decreases j,
{
    if j <= 0 {
        zeros16()
    } else {
        placed_upto(lv, runs, tc, tz, j - 1).update(level_position(runs, tc, tz, j - 1), lv[tc - j])
    }
}

proof fn lemma_placed_upto_push(lv: Seq<i32>, d: Seq<int>, x: int, tc: int, tz: int, j: int)
    requires
        0 <= j <= d.len() + 1,
    ensures
        placed_upto(lv, d.push(x), tc, tz, j) == placed_upto(lv, d, tc, tz, j),
    decreases j,
{
    if j > 0 {
        lemma_placed_upto_push(lv, d, x, tc, tz, j - 1);
        lemma_run_total_push(d, x, j - 1);
    }
}

/// The runs describe a valid placement: one per level, none negative,
/// adding up to `tz`, with `tc + tz` positions in a 4×4 block.
spec fn runs_fit(runs: Seq<int>, tc: int, tz: int) -> bool {
    &&& 0 <= tc <= 16
    &&& 0 <= tz
    &&& tc + tz <= 16
    &&& runs.len() == tc
    &&& forall|m: int| 0 <= m < tc ==> #[trigger] runs[m] >= 0
    &&& tc > 0 ==> run_total(runs, tc) == tz
}

/// Level positions fall strictly as the reading goes on, and stay in 0..16.
proof fn lemma_positions(runs: Seq<int>, tc: int, tz: int, m1: int, m2: int)
    requires
        runs_fit(runs, tc, tz),
        0 <= m1 <= m2 < tc,
    ensures
        0 <= level_position(runs, tc, tz, m2) <= level_position(runs, tc, tz, m1) < 16,
        m1 < m2 ==> level_position(runs, tc, tz, m2) < level_position(runs, tc, tz, m1),
    decreases m2 - m1,
{
    lemma_run_total_nonneg(runs, m1, tc);
    if m1 < m2 {
        lemma_positions(runs, tc, tz, m1 + 1, m2);
        assert(run_total(runs, m1 + 1) == run_total(runs, m1) + runs[m1]);
    } else {
        lemma_run_total_le(runs, m2 + 1, tc);
        assert(run_total(runs, m2 + 1) == run_total(runs, m2) + runs[m2]);
    }
}

proof fn lemma_run_total_nonneg(runs: Seq<int>, m: int, tc: int)
    requires
        0 <= m <= tc <= runs.len(),
        forall|i: int| 0 <= i < tc ==> #[trigger] runs[i] >= 0,
    ensures
        run_total(runs, m) >= 0,
    decreases m,
{
    if m > 0 {
        lemma_run_total_nonneg(runs, m - 1, tc);
    }
}

proof fn lemma_run_total_le(runs: Seq<int>, m: int, tc: int)
    requires
        0 <= m <= tc <= runs.len(),
        forall|i: int| 0 <= i < tc ==> #[trigger] runs[i] >= 0,
    ensures
        run_total(runs, m) <= run_total(runs, tc),
    decreases tc - m,
{
    if m < tc {
        lemma_run_total_le(runs, m + 1, tc);
    }
}

/// After `j` levels: each sits at its position, every position no level
/// has reached is 0, and with nonzero levels, `j` entries are nonzero.
proof fn lemma_placed_upto(lv: Seq<i32>, runs: Seq<int>, tc: int, tz: int, j: int)
    requires
        runs_fit(runs, tc, tz),
        lv.len() == 16,
        0 <= j <= tc,
    ensures
        placed_upto(lv, runs, tc, tz, j).len() == 16,
        forall|m: int| 0 <= m < j ==> placed_upto(lv, runs, tc, tz, j)[#[trigger] level_position(runs, tc, tz, m)] == lv[tc - 1 - m],
        forall|k: int| 0 <= k < 16 && (forall|m: int| 0 <= m < j ==> #[trigger] level_position(runs, tc, tz, m) != k)
            ==> placed_upto(lv, runs, tc, tz, j)[k] == 0,
        (forall|m: int| 0 <= m < tc ==> #[trigger] lv[m] != 0) ==> nonzero_count(placed_upto(lv, runs, tc, tz, j), 16) == j,
    decreases j,
{
    if j == 0 {
        lemma_count_zeros16(16);
    } else {
        lemma_placed_upto(lv, runs, tc, tz, j - 1);
        let prev = placed_upto(lv, runs, tc, tz, j - 1);
        let pj = level_position(runs, tc, tz, j - 1);
        lemma_positions(runs, tc, tz, j - 1, j - 1);
        assert forall|m: int| 0 <= m < j - 1 implies #[trigger] level_position(runs, tc, tz, m) != pj by {
            lemma_positions(runs, tc, tz, m, j - 1);
        }
        assert(prev[pj] == 0);
        assert forall|m: int| 0 <= m < j implies placed_upto(lv, runs, tc, tz, j)[#[trigger] level_position(runs, tc, tz, m)] == lv[tc - 1 - m] by {
            if m < j - 1 {
                lemma_positions(runs, tc, tz, m, j - 1);
            }
        }
        if forall|m: int| 0 <= m < tc ==> #[trigger] lv[m] != 0 {
            assert(lv[tc - j] != 0);
            lemma_count_update(prev, 16, pj, lv[tc - j]);
        }
    }
}

/// The placement written one level at a time is `place_levels`, and has
/// exactly `tc` nonzero entries when the levels are nonzero.
proof fn lemma_place_levels(lv: Seq<i32>, runs: Seq<int>, tc: int, tz: int)
    requires
        runs_fit(runs, tc, tz),
        lv.len() == 16,
    ensures
        place_levels(lv, runs, tc, tz) == placed_upto(lv, runs, tc, tz, tc),
        (forall|m: int| 0 <= m < tc ==> #[trigger] lv[m] != 0) ==> nonzero_count(place_levels(lv, runs, tc, tz), 16) == tc,
{
    lemma_placed_upto(lv, runs, tc, tz, tc);
    let a = place_levels(lv, runs, tc, tz);
    let b = placed_upto(lv, runs, tc, tz, tc);
    assert forall|k: int| 0 <= k < 16 implies a[k] == b[k] by {
        if exists|j: int| 0 <= j < tc && #[trigger] level_position(runs, tc, tz, j) == k {
            let j = choose|j: int| 0 <= j < tc && #[trigger] level_position(runs, tc, tz, j) == k;
            assert(b[level_position(runs, tc, tz, j)] == lv[tc - 1 - j]);
        }
    }
    assert(a =~= b);
}

// ─────────────────────────────────────────────────────────────────────
// Nonzero coefficients of a residual block
// ─────────────────────────────────────────────────────────────────────

/// The number of nonzero entries of `c[..n]`.
pub open spec fn nonzero_count(c: Seq<i32>, n: int) -> int
    decreases n,
{
    if n <= 0 {
        0
    } else {
        nonzero_count(c, n - 1) + if c[n - 1] != 0 { 1int } else { 0int }
    }
}

proof fn lemma_count_zeros16(n: int)
    requires
        0 <= n <= 16,
    ensures
        nonzero_count(zeros16(), n) == 0,
    decreases n,
{
    if n > 0 {
        lemma_count_zeros16(n - 1);
    }
}

proof fn lemma_count_update(c: Seq<i32>, n: int, j: int, v: i32)
    requires
        0 <= j < c.len(),
        0 <= n <= c.len(),
        c[j] == 0,
        v != 0,
    ensures
        nonzero_count(c.update(j, v), n) == nonzero_count(c, n) + if j < n { 1int } else { 0int },
    decreases n,
{
    if n > 0 {
        lemma_count_update(c, n - 1, j, v);
    }
}

/// One non-trailing-one level with suffixLength in 0..=6 is nonzero and
/// small, and the next suffixLength is in 1..=6.
proof fn lemma_level_step_nonzero(s: Seq<u8>, p: int, sl: int, k: int, t1: int)
    requires
        0 <= sl <= 6,
    ensures
        level_step(s, p, sl, k, t1).0 matches Ok((level, sl2)) ==> level != 0 && -5001 < level < 5002 && 1 <= sl2 <= 6,
{
    let (pr, p1) = level_prefix_spec(s, p);
    if let Ok(prefix) = pr {
        let size = suffix_size(prefix as int, sl);
        if !(size > 0 && p1 + size > nbits(s)) {
            lemma_p2_small();
            reveal_with_fuel(p2, 13);
            crate::bitreader::lemma_p2_mono(sl as nat, 6);
            let suffix = if size > 0 { bits_value(s, p1, size as nat) as int } else { 0int };
            if size > 0 {
                crate::bitreader::lemma_bits_value_bound(s, p1, size as nat);
                crate::bitreader::lemma_p2_mono(size as nat, 12);
            }
            assert(0 <= suffix < 4096);
            let pf: int = if prefix < 15 { prefix as int } else { 15 };
            let q = p2(sl as nat) as int;
            assert(0 <= pf * q <= 15 * 64) by (nonlinear_arith)
                requires
                    0 <= pf <= 15,
                    0 <= q <= 64;
            let lc = level_code(prefix as int, suffix, sl, k, t1);
            assert(0 <= lc < 10000);
            let level = level_of(lc);
            assert(level != 0 && -5001 < level < 5002);
            let sl1 = if sl == 0 { 1 } else { sl };
            assert(1 <= next_suffix_length(sl, level) <= 6);
        }
    }
}

proof fn lemma_signs_nonzero(s: Seq<u8>, p: int, i: int, t1: int, tc: int, lv: Seq<i32>)
    requires
        0 <= i <= t1 <= tc <= 16,
        lv.len() == 16,
        forall|j: int| tc - i <= j < tc ==> lv[j] != 0,
    ensures
        signs_loop(s, p, i, t1, tc, lv).0 matches Ok(out) ==> out.len() == 16 && (forall|j: int|
            tc - t1 <= j < tc ==> out[j] != 0),
    decreases t1 - i,
{
    if i < t1 && p < nbits(s) {
        let v: i32 = if bit_at(s, p) == 1 { -1i32 } else { 1i32 };
        lemma_signs_nonzero(s, p + 1, i + 1, t1, tc, lv.update(tc - 1 - i, v));
    }
}

proof fn lemma_levels_loop_nonzero(s: Seq<u8>, p: int, sl: int, k: int, n: int, t1: int, tc: int, lv: Seq<i32>)
    requires
        0 <= k <= n <= tc <= 16,
        0 <= sl <= 6,
        lv.len() == 16,
        forall|j: int| n - k <= j < tc ==> lv[j] != 0,
    ensures
        levels_loop(s, p, sl, k, n, t1, lv).0 matches Ok(out) ==> out.len() == 16 && (forall|j: int|
            0 <= j < tc ==> out[j] != 0),
    decreases n - k,
{
    if k < n {
        lemma_level_step_nonzero(s, p, sl, k, t1);
        let (r, q) = level_step(s, p, sl, k, t1);
        if let Ok((level, sl2)) = r {
            assert((level as i32) as int == level);
            lemma_levels_loop_nonzero(s, q, sl2, k + 1, n, t1, tc, lv.update(n - 1 - k, level as i32));
        }
    }
}

/// The decoded levels are nonzero at every index below TotalCoeff.
proof fn lemma_levels_nonzero(s: Seq<u8>, p: int, tc: int, t1: int)
    requires
        0 <= tc <= 16,
        0 <= t1,
    ensures
        levels_spec(s, p, tc, t1).0 matches Ok(lv) ==> lv.len() == 16 && (forall|j: int| 0 <= j < tc ==> lv[j] != 0),
{
    if tc > 0 && t1 <= tc && t1 <= 3 {
        lemma_signs_nonzero(s, p, 0, t1, tc, zeros16());
        let (r, q) = signs_loop(s, p, 0, t1, tc, zeros16());
        if let Ok(lv) = r {
            if tc != t1 {
                lemma_levels_loop_nonzero(s, q, if tc > 10 && t1 < 3 { 1 } else { 0 }, 0, tc - t1, t1, tc, lv);
            }
        }
    }
}

/// 1 for a nonzero entry, 0 otherwise.
pub open spec fn nz(x: i32) -> int {
    if x != 0 { 1 } else { 0 }
}

proof fn lemma_count16(c: Seq<i32>)
    ensures
        nonzero_count(c, 16) == nz(c[0]) + nz(c[1]) + nz(c[2]) + nz(c[3]) + nz(c[4]) + nz(c[5]) + nz(c[6])
            + nz(c[7]) + nz(c[8]) + nz(c[9]) + nz(c[10]) + nz(c[11]) + nz(c[12]) + nz(c[13]) + nz(c[14])
            + nz(c[15]),
{
    assert(nonzero_count(c, 0) == 0);
    assert(nonzero_count(c, 1) == nz(c[0]));
    assert(nonzero_count(c, 2) == nonzero_count(c, 1) + nz(c[1]));
    assert(nonzero_count(c, 3) == nonzero_count(c, 2) + nz(c[2]));
    assert(nonzero_count(c, 4) == nonzero_count(c, 3) + nz(c[3]));
    assert(nonzero_count(c, 5) == nonzero_count(c, 4) + nz(c[4]));
    assert(nonzero_count(c, 6) == nonzero_count(c, 5) + nz(c[5]));
    assert(nonzero_count(c, 7) == nonzero_count(c, 6) + nz(c[6]));
    assert(nonzero_count(c, 8) == nonzero_count(c, 7) + nz(c[7]));
    assert(nonzero_count(c, 9) == nonzero_count(c, 8) + nz(c[8]));
    assert(nonzero_count(c, 10) == nonzero_count(c, 9) + nz(c[9]));
    assert(nonzero_count(c, 11) == nonzero_count(c, 10) + nz(c[10]));
    assert(nonzero_count(c, 12) == nonzero_count(c, 11) + nz(c[11]));
    assert(nonzero_count(c, 13) == nonzero_count(c, 12) + nz(c[12]));
    assert(nonzero_count(c, 14) == nonzero_count(c, 13) + nz(c[13]));
    assert(nonzero_count(c, 15) == nonzero_count(c, 14) + nz(c[14]));
    assert(nonzero_count(c, 16) == nonzero_count(c, 15) + nz(c[15]));
}

proof fn lemma_raster_count(zz: Seq<i32>)
    requires
        zz.len() == 16,
    ensures
        nonzero_count(raster_of(zz), 16) == nonzero_count(zz, 16),
{
    let r = raster_of(zz);
    lemma_count16(r);
    lemma_count16(zz);
    assert(r[0] == zz[0] && r[1] == zz[1] && r[2] == zz[5] && r[3] == zz[6]);
    assert(r[4] == zz[2] && r[5] == zz[4] && r[6] == zz[7] && r[7] == zz[12]);
    assert(r[8] == zz[3] && r[9] == zz[8] && r[10] == zz[11] && r[11] == zz[13]);
    assert(r[12] == zz[9] && r[13] == zz[10] && r[14] == zz[14] && r[15] == zz[15]);
}

/// A decoded residual block has exactly TotalCoeff nonzero coefficients.
pub proof fn lemma_residual_nonzero_count(variant: CoeffTokenVariant, s: Seq<u8>, p: int)
    ensures
        residual_spec(variant, s, p).0 matches Ok((tc, c)) ==> tc <= 16 && c.len() == 16 && nonzero_count(c, 16)
            == tc,
{
    lemma_coeff_token_bounds(variant, s, p);
    let (cr, p1) = coeff_token_spec(variant, s, p);
    if let Ok(ct) = cr {
        let tc = ct.total_coeff as int;
        lemma_levels_nonzero(s, p1, tc, ct.trailing_ones as int);
        let (lr, p2_) = levels_spec(s, p1, tc, ct.trailing_ones as int);
        if let Ok(lv) = lr {
            let (tr, p3) = total_zeros_spec(tc, s, p2_);
            if 1 <= tc <= 15 {
                tables::lemma_total_zeros_values(tc);
                lemma_vlc_at_most(tables::tz_table_spec(tc), s, p2_, 16 - tc);
            }
            if let Ok(tz) = tr {
                assert(tc + tz <= 16);
                let (rr, _) = runs_spec(s, p3, 0, tc, tz as int);
                if let Ok(runs) = rr {
                    if tc > 0 {
                        lemma_runs_spec(s, p3, 0, tc, tz as int);
                    }
                    lemma_place_levels(lv, runs, tc, tz as int);
                    lemma_raster_count(place_levels(lv, runs, tc, tz as int));
                }
            }
        }
    }
}

/// Decode one 4×4 residual block: 16 levels in raster order.
pub fn decode_residual_block_4x4(br: &mut BitReader, variant: CoeffTokenVariant) -> (res: Result<[i32; 16], DecodeError>)
    ensures
        final(br).data() == old(br).data(),
        ({
            let (r, q) = residual_spec(variant, old(br).data(), old(br).pos());
            &&& final(br).pos() == q
            &&& match r {
                Ok((tc, raster)) => res matches Ok(a) && a@ == raster && nonzero_count(a@, 16) == tc,
                Err(e) => res == Err::<[i32; 16], DecodeError>(e),
            }
        }),
{
    proof { lemma_residual_nonzero_count(variant, br.data(), br.pos()); }
    match decode_residual_block_4x4_with_tc(br, variant) {
        Ok((_, c)) => Ok(c),
        Err(e) => Err(e),
    }
}

/// Like `decode_residual_block_4x4`, and also returns the TotalCoeff that
/// drove the decode (for neighbour-based nC tracking).
pub fn decode_residual_block_4x4_with_tc(br: &mut BitReader, variant: CoeffTokenVariant) -> (res: Result<(u8, [i32; 16]), DecodeError>)
    ensures
        final(br).data() == old(br).data(),
        ({
            let (r, q) = residual_spec(variant, old(br).data(), old(br).pos());
            &&& final(br).pos() == q
            &&& match r {
                Ok((tc, raster)) => res matches Ok((t, a)) && t == tc && a@ == raster && tc <= 16,
                Err(e) => res == Err::<(u8, [i32; 16]), DecodeError>(e),
            }
        }),
        res matches Ok((tc, a)) ==> nonzero_count(a@, 16) == tc,
{
    proof { lemma_residual_nonzero_count(variant, br.data(), br.pos()); }
    let ghost s = br.data();
    let ct = match decode_coeff_token(br, variant) {
        Ok(c) => c,
        Err(e) => { return Err(e); },
    };
    let levels = match decode_levels(br, ct.total_coeff, ct.trailing_ones) {
        Ok(l) => l,
        Err(e) => { return Err(e); },
    };
    let total_zeros = match decode_total_zeros_4x4(br, ct.total_coeff) {
        Ok(t) => t,
        Err(e) => { return Err(e); },
    };
    let ghost p3 = br.pos();
    let tc = ct.total_coeff;
    let ghost lv = levels@;
    let ghost tz = total_zeros as int;
    let mut zeros_left = total_zeros;
    let mut zz = [0i32; 16];
    assert(zz@ =~= zeros16());
    // The first level read is the highest-frequency one; it sits at
    // TotalCoeff + total_zeros - 1 and each later one `run + 1` below.
    let mut pos: usize = if tc > 0 { (tc + total_zeros - 1) as usize } else { 0 };
    let ghost mut done: Seq<int> = Seq::empty();
    let mut j: usize = 0;
    while j < tc as usize
        invariant
            br.data() == s,
            s == old(br).data(),
            tc <= 16,
            tc + total_zeros <= 16,
            tz == total_zeros as int,
            lv == levels@,
            lv.len() == 16,
            j <= tc,
            done.len() == j,
            forall|m: int| 0 <= m < j ==> #[trigger] done[m] >= 0,
            zeros_left <= total_zeros,
            j < tc ==> zeros_left as int == tz - run_total(done, j as int),
            j < tc ==> pos as int == tc - j - 1 + zeros_left,
            zz@ == placed_upto(lv, done, tc as int, tz, j as int),
            residual_spec(variant, s, old(br).pos()) == (match runs_spec(s, p3, 0, tc as int, tz) {
                (Err(e), q) => (Err::<(u8, Seq<i32>), DecodeError>(e), q),
                (Ok(runs), q) => (Ok((tc, raster_of(place_levels(lv, runs, tc as int, tz)))), q),
            }),
            runs_spec(s, p3, 0, tc as int, tz) == (match runs_spec(s, br.pos(), j as int, tc as int, zeros_left as int) {
                (Ok(rest), q) => (Ok(done + rest), q),
                (Err(e), q) => (Err::<Seq<int>, DecodeError>(e), q),
            }),
        decreases tc - j,
    {
        assert(pos as int == level_position(done, tc as int, tz, j as int));
        zz[pos] = levels[tc as usize - 1 - j];
        proof {
            assert(zz@ == placed_upto(lv, done, tc as int, tz, j as int + 1));
        }
        if j + 1 < tc as usize {
            let r = match decode_run_before(br, zeros_left) {
                Ok(r) => r,
                Err(e) => { return Err(e); },
            };
            proof {
                lemma_placed_upto_push(lv, done, r as int, tc as int, tz, j as int + 1);
                lemma_run_total_push(done, r as int, j as int);
                let old_done = done;
                done = done.push(r as int);
                assert(run_total(done, j as int + 1) == run_total(old_done, j as int) + r);
                let (rest, q2) = runs_spec(s, br.pos(), j as int + 1, tc as int, zeros_left - r);
                if let Ok(t) = rest {
                    assert(old_done + (seq![r as int] + t) =~= done + t);
                }
            }
            zeros_left -= r;
            pos = pos - (r as usize) - 1;
        } else {
            proof {
                lemma_placed_upto_push(lv, done, zeros_left as int, tc as int, tz, j as int + 1);
                let old_done = done;
                done = done.push(zeros_left as int);
                assert(old_done + seq![zeros_left as int] =~= done + Seq::<int>::empty());
            }
        }
        j += 1;
    }
    proof {
        assert(done + Seq::<int>::empty() =~= done);
        if tc > 0 {
            lemma_runs_spec(s, p3, 0, tc as int, tz);
        }
        lemma_place_levels(lv, done, tc as int, tz);
    }
    let ghost zzs = zz@;
    let z = zigzag_4x4();
    proof { lemma_zigzag_permutation(); }
    let mut raster = [0i32; 16];
    let mut k: usize = 0;
    while k < 16
        invariant
            z@ == zigzag_spec(),
            zz@ == zzs,
            zzs.len() == 16,
            k <= 16,
            raster@.len() == 16,
            forall|r: int| 0 <= r < 16 ==> #[trigger] raster@[r] == (if unzigzag_spec()[r] < k { zzs[unzigzag_spec()[r]] } else { 0i32 }),
            forall|k2: int| 0 <= k2 < 16 ==> #[trigger] zigzag_spec()[k2] < 16 && unzigzag_spec()[zigzag_spec()[k2] as int] == k2,
            forall|r: int| 0 <= r < 16 ==> 0 <= #[trigger] unzigzag_spec()[r] < 16 && zigzag_spec()[unzigzag_spec()[r]] == r,
        decreases 16 - k,
    {
        raster[z[k]] = zz[k];
        k += 1;
    }
    assert(raster@ =~= raster_of(zzs));
    Ok((tc, raster))
}

} // verus!
