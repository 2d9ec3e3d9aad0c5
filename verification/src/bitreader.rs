//! Bit reader for the H.264 RBSP byte stream: raw MSB-first bits and the
//! Exp-Golomb codes ue(v), se(v) and te(v).

use vstd::prelude::*;

use crate::DecodeError;

verus! {

/// Cap on the Exp-Golomb leading-zero count.
pub const MAX_EXP_GOLOMB_LEADING_ZEROS: u32 = 32;

// ─────────────────────────────────────────────────────────────────────
// Mathematical model of a bit string stored MSB-first in bytes.
// ─────────────────────────────────────────────────────────────────────

/// Number of bits held by `s`.
pub open spec fn nbits(s: Seq<u8>) -> int {
    (s.len() * 8) as int
}

/// Bit `i` of `s` (bit 0 is the most significant bit of byte 0).
pub open spec fn bit_at(s: Seq<u8>, i: int) -> u32 {
    ((s[i / 8] >> ((7 - i % 8) as u8)) & 1u8) as u32
}

/// The unsigned big-endian value of the `n` bits of `s` starting at `p`.
pub open spec fn bits_value(s: Seq<u8>, p: int, n: nat) -> nat
    decreases n,
{
    if n == 0 {
        0
    } else {
        (2 * bits_value(s, p, (n - 1) as nat) + bit_at(s, p + n - 1)) as nat
    }
}

/// 2 to the power `n`.
pub open spec fn p2(n: nat) -> nat
    decreases n,
{
    if n == 0 { 1 } else { 2 * p2((n - 1) as nat) }
}

/// Number of consecutive zero bits of `s` starting at `p`, looking at no
/// more than `k` bits and stopping at the end of `s`.
pub open spec fn count_zeros(s: Seq<u8>, p: int, k: nat) -> nat
    decreases k,
{
    if k == 0 || p >= nbits(s) || bit_at(s, p) == 1 {
        0
    } else {
        1 + count_zeros(s, p + 1, (k - 1) as nat)
    }
}

/// What `read_ue` does from bit position `p`: the result and the position
/// afterwards.
pub open spec fn ue_spec(s: Seq<u8>, p: int) -> (Result<u32, DecodeError>, int) {
    let z = count_zeros(s, p, 33);
    if z == 33 {
        (Err(DecodeError::ExpGolombTooLong), p + 33)
    } else if p + z >= nbits(s) {
        (Err(DecodeError::BitstreamTruncated), nbits(s))
    } else if z == 0 {
        (Ok(0u32), p + 1)
    } else if p + 2 * z + 1 > nbits(s) {
        (Err(DecodeError::BitstreamTruncated), p + z + 1)
    } else {
        let v = p2(z) - 1 + bits_value(s, p + z + 1, z);
        if v > u32::MAX {
            (Err(DecodeError::ExpGolombTooLong), p + 2 * z + 1)
        } else {
            (Ok(v as u32), p + 2 * z + 1)
        }
    }
}

/// What `read_bit` does from bit position `p`.
pub open spec fn bit_spec(s: Seq<u8>, p: int) -> (Result<u32, DecodeError>, int) {
    if p >= nbits(s) {
        (Err(DecodeError::BitstreamTruncated), p)
    } else {
        (Ok(bit_at(s, p) as u32), p + 1)
    }
}

/// What `read_bits(n)` does from bit position `p`.
pub open spec fn bits_spec(s: Seq<u8>, p: int, n: nat) -> (Result<u32, DecodeError>, int) {
    if p + n > nbits(s) {
        (Err(DecodeError::BitstreamTruncated), p)
    } else {
        (Ok(bits_value(s, p, n) as u32), p + n)
    }
}

/// The signed mapping of se(v): k=0 → 0, odd k → (k+1)/2, even k → -(k/2).
pub open spec fn se_of(k: u32) -> i32 {
    if k == 0 {
        0
    } else if k % 2 == 1 {
        ((k as int + 1) / 2) as i32
    } else {
        (-(k as int / 2)) as i32
    }
}

/// What `read_se` does from bit position `p`.
pub open spec fn se_spec(s: Seq<u8>, p: int) -> (Result<i32, DecodeError>, int) {
    let (r, q) = ue_spec(s, p);
    match r {
        Ok(k) => (Ok(se_of(k)), q),
        Err(e) => (Err(e), q),
    }
}

/// What `read_te(x)` does from bit position `p`.
pub open spec fn te_spec(s: Seq<u8>, p: int, x: u32) -> (Result<u32, DecodeError>, int) {
    if x == 1 {
        if p >= nbits(s) {
            (Err(DecodeError::BitstreamTruncated), p)
        } else {
            (Ok((1 - bit_at(s, p)) as u32), p + 1)
        }
    } else {
        ue_spec(s, p)
    }
}

// ─────────────────────────────────────────────────────────────────────
// Lemmas
// ─────────────────────────────────────────────────────────────────────

/// A bit is 0 or 1.
pub proof fn lemma_bit_at_bound(s: Seq<u8>, i: int)
    ensures
        bit_at(s, i) <= 1,
{
    let b = s[i / 8];
    let sh = (7 - i % 8) as u8;
    assert((b >> sh) & 1u8 <= 1u8) by (bit_vector);
}

/// The value of `n` bits is below 2^n.
pub proof fn lemma_bits_value_bound(s: Seq<u8>, p: int, n: nat)
    ensures
        bits_value(s, p, n) < p2(n),
    decreases n,
{
    if n > 0 {
        lemma_bits_value_bound(s, p, (n - 1) as nat);
        lemma_bit_at_bound(s, p + n - 1);
    }
}

/// Shifting a bit in at the bottom doubles and adds.
pub proof fn lemma_shift_in_bit(v: u32, bit: u32)
    by (bit_vector)
    ensures
        v < 0x8000_0000u32 && bit <= 1u32 ==> (v << 1u32) | bit == 2 * v + bit,
{
}

/// 2^32.
pub proof fn lemma_p2_32()
    ensures
        p2(32) == 0x1_0000_0000,
{
    reveal_with_fuel(p2, 33);
}

/// Powers of two grow with the exponent.
pub proof fn lemma_p2_mono(a: nat, b: nat)
    requires
        a <= b,
    ensures
        p2(a) <= p2(b),
    decreases b,
{
    if a < b {
        lemma_p2_mono(a, (b - 1) as nat);
    }
}

/// A run of `k` zero bits followed by a one bit fixes `count_zeros`.
pub proof fn lemma_count_zeros_exact(s: Seq<u8>, p: int, k: nat, cap: nat)
    requires
        0 <= p,
        k < cap,
        p + k < nbits(s),
        forall|j: int| p <= j < p + k ==> bit_at(s, j) == 0,
        bit_at(s, p + k) == 1,
    ensures
        count_zeros(s, p, cap) == k,
    decreases k,
{
    if k > 0 {
        lemma_count_zeros_exact(s, p + 1, (k - 1) as nat, (cap - 1) as nat);
    }
}

/// `k` zero bits with nothing after them fixes `count_zeros` too.
pub proof fn lemma_count_zeros_to_end(s: Seq<u8>, p: int, k: nat, cap: nat)
    requires
        0 <= p,
        k <= cap,
        p + k == nbits(s),
        forall|j: int| p <= j < p + k ==> bit_at(s, j) == 0,
    ensures
        count_zeros(s, p, cap) == k,
    decreases k,
{
    if k > 0 {
        lemma_count_zeros_to_end(s, p + 1, (k - 1) as nat, (cap - 1) as nat);
    }
}

/// `cap` zero bits in a row make `count_zeros` reach its cap.
pub proof fn lemma_count_zeros_full(s: Seq<u8>, p: int, cap: nat)
    requires
        0 <= p,
        p + cap <= nbits(s),
        forall|j: int| p <= j < p + cap ==> bit_at(s, j) == 0,
    ensures
        count_zeros(s, p, cap) == cap,
    decreases cap,
{
    if cap > 0 {
        lemma_count_zeros_full(s, p + 1, (cap - 1) as nat);
    }
}

/// The `n + m` bits at `p` are the `n` bits at `p` followed by the `m`
/// bits after them.
pub proof fn lemma_bits_value_split(s: Seq<u8>, p: int, n: nat, m: nat)
    ensures
        bits_value(s, p, n + m) == bits_value(s, p, n) * p2(m) + bits_value(s, p + n, m),
    decreases m,
{
    if m > 0 {
        let m1 = (m - 1) as nat;
        lemma_bits_value_split(s, p, n, m1);
        assert((n + m1) as nat == (n + m - 1) as nat);
        let a = bits_value(s, p, n);
        let q = p2(m1);
        let bit = bit_at(s, p + n + m - 1);
        assert(bits_value(s, p, n + m) == 2 * bits_value(s, p, (n + m1) as nat) + bit);
        assert(bits_value(s, p + n, m) == 2 * bits_value(s, p + n, m1) + bit);
        assert(p2(m) == 2 * q);
        assert(2 * (a * q) == a * (2 * q)) by (nonlinear_arith);
        assert(bits_value(s, p, (n + m1) as nat) == a * q + bits_value(s, p + n, m1));
    } else {
        assert(p2(0) == 1);
        assert(bits_value(s, p + n, 0) == 0);
        assert((n + m) as nat == n);
    }
}

/// Reading `n` bits and then `m` more is reading `n + m` bits at once:
/// the first value shifted left by `m` with the second below it, and the
/// cursor in the same place.
pub proof fn lemma_read_bits_concat(s: Seq<u8>, p: int, n: nat, m: nat)
    requires
        0 <= p,
        n + m <= 32,
        p + n + m <= nbits(s),
    ensures
        ({
            let (r1, q1) = bits_spec(s, p, n);
            let (r2, q2) = bits_spec(s, q1, m);
            &&& r1 matches Ok(a)
            &&& r2 matches Ok(b)
            &&& bits_spec(s, p, n + m) == (Ok::<u32, DecodeError>((a as int * p2(m) + b as int) as u32), q2)
        }),
{
    lemma_bits_value_split(s, p, n, m);
    lemma_bits_value_bound(s, p, n);
    lemma_bits_value_bound(s, p + n, m);
    lemma_bits_value_bound(s, p, n + m);
    lemma_p2_mono(n, 32);
    lemma_p2_mono(m, 32);
    lemma_p2_mono(n + m, 32);
    lemma_p2_32();
}

// ─────────────────────────────────────────────────────────────────────
// The reader
// ─────────────────────────────────────────────────────────────────────

/// Cursor over an RBSP byte slice, reading bits MSB-first.
#[derive(Debug)]
pub struct BitReader<'a> {
    bytes: &'a [u8],
    /// Bit position within `bytes` (0 = MSB of byte 0).
    bit_pos: usize,
}

impl<'a> BitReader<'a> {
    #[verifier::type_invariant]
    spec fn wf(self) -> bool {
        &&& self.bytes@.len() * 8 <= usize::MAX
        &&& self.bit_pos <= self.bytes@.len() * 8
    }

    /// The bytes being read.
    pub closed spec fn data(&self) -> Seq<u8> {
        self.bytes@
    }

    /// The current bit position.
    pub closed spec fn pos(&self) -> int {
        self.bit_pos as int
    }

    /// A reader at the start of `bytes`.
    pub fn new(bytes: &'a [u8]) -> (r: Self)
        requires
            bytes@.len() * 8 <= usize::MAX,
        ensures
            r.data() == bytes@,
            r.pos() == 0,
    {
        BitReader { bytes, bit_pos: 0 }
    }

    /// A second reader at the same place over the same bytes.
    pub fn fork(&self) -> (r: Self)
        ensures
            r.data() == self.data(),
            r.pos() == self.pos(),
    {
        proof { use_type_invariant(self); }
        BitReader { bytes: self.bytes, bit_pos: self.bit_pos }
    }

    /// The current bit position.
    pub fn bit_pos(&self) -> (r: usize)
        ensures
            r == self.pos(),
            r <= nbits(self.data()),
            nbits(self.data()) <= usize::MAX,
    {
        proof { use_type_invariant(self); }
        self.bit_pos
    }

    /// Number of bits remaining.
    pub fn remaining_bits(&self) -> (r: usize)
        ensures
            r == nbits(self.data()) - self.pos(),
    {
        proof { use_type_invariant(self); }
        self.bytes.len() * 8 - self.bit_pos
    }

    /// Whether the reader is byte-aligned.
    pub fn is_byte_aligned(&self) -> (r: bool)
        ensures
            r == (self.pos() % 8 == 0),
    {
        self.bit_pos % 8 == 0
    }

    /// Discard bits until the cursor is byte-aligned.
    pub fn align_to_byte(&mut self)
        ensures
            final(self).data() == old(self).data(),
            old(self).pos() % 8 == 0 ==> final(self).pos() == old(self).pos(),
            old(self).pos() % 8 != 0 ==> final(self).pos() == old(self).pos() + 8 - old(self).pos() % 8,
            final(self).pos() % 8 == 0,
    {
        proof { use_type_invariant(&*self); }
        let r = self.bit_pos % 8;
        if r != 0 {
            assert(self.bit_pos + 8 - r <= self.bytes@.len() * 8) by (nonlinear_arith)
                requires
                    self.bit_pos <= self.bytes@.len() * 8,
                    r == self.bit_pos % 8,
                    r != 0,
            ;
            self.bit_pos = self.bit_pos + (8 - r);
        }
    }

    /// Read one bit. Returns 0 or 1.
    pub fn read_bit(&mut self) -> (res: Result<u32, DecodeError>)
        ensures
            final(self).data() == old(self).data(),
            old(self).pos() >= nbits(old(self).data()) ==> res == Err::<u32, DecodeError>(
                DecodeError::BitstreamTruncated,
            ) && final(self).pos() == old(self).pos(),
            old(self).pos() < nbits(old(self).data()) ==> res == Ok::<u32, DecodeError>(
                bit_at(old(self).data(), old(self).pos()),
            ) && final(self).pos() == old(self).pos() + 1,
            (res, final(self).pos()) == bit_spec(old(self).data(), old(self).pos()),
    {
        proof { use_type_invariant(&*self); }
        if self.bit_pos >= self.bytes.len() * 8 {
            return Err(DecodeError::BitstreamTruncated);
        }
        let byte = self.bytes[self.bit_pos / 8];
        let shift = (7 - self.bit_pos % 8) as u8;
        let bit = ((byte >> shift) & 1u8) as u32;
        self.bit_pos = self.bit_pos + 1;
        Ok(bit)
    }

    /// Read `n` raw bits (`n ≤ 32`) as a big-endian unsigned integer.
    /// When fewer than `n` bits remain, fails without moving the cursor.
    pub fn read_bits(&mut self, n: u32) -> (res: Result<u32, DecodeError>)
        requires
            n <= 32,
        ensures
            final(self).data() == old(self).data(),
            old(self).pos() + n > nbits(old(self).data()) ==> res == Err::<u32, DecodeError>(
                DecodeError::BitstreamTruncated,
            ) && final(self).pos() == old(self).pos(),
            old(self).pos() + n <= nbits(old(self).data()) ==> res == Ok::<u32, DecodeError>(
                bits_value(old(self).data(), old(self).pos(), n as nat) as u32,
            ) && final(self).pos() == old(self).pos() + n,
            res is Ok ==> res->Ok_0 == bits_value(old(self).data(), old(self).pos(), n as nat),
            (res, final(self).pos()) == bits_spec(old(self).data(), old(self).pos(), n as nat),
    {
        proof { use_type_invariant(&*self); }
        if n == 0 {
            return Ok(0);
        }
        if n as usize > self.bytes.len() * 8 - self.bit_pos {
            return Err(DecodeError::BitstreamTruncated);
        }
        let ghost s = self.bytes@;
        let ghost p0 = self.bit_pos as int;
        let mut v: u32 = 0;
        let mut k: u32 = 0;
        while k < n
            invariant
                self.data() == s,
                k <= n <= 32,
                self.pos() == p0 + k,
                p0 + n <= nbits(s),
                v == bits_value(s, p0, k as nat),
                v < p2(k as nat),
            decreases n - k,
        {
            let b = self.read_bit();
            let bit = match b {
                Ok(bit) => bit,
                Err(e) => { return Err(e); }
            };
            proof {
                lemma_bit_at_bound(s, p0 + k);
                lemma_p2_mono((k + 1) as nat, 32);
                lemma_p2_32();
            }
            proof { lemma_shift_in_bit(v, bit); }
            v = (v << 1) | bit;
            k = k + 1;
        }
        Ok(v)
    }

    /// Unsigned Exp-Golomb code `ue(v)`: N leading zero bits, a one, then
    /// N more bits; the value is `2^N - 1 + bits`. More than 32 leading
    /// zeros, or a value that does not fit in 32 bits, is rejected with
    /// `ExpGolombTooLong`.
    pub fn read_ue(&mut self) -> (res: Result<u32, DecodeError>)
        ensures
            final(self).data() == old(self).data(),
            (res, final(self).pos()) == ue_spec(old(self).data(), old(self).pos()),
    {
        proof { use_type_invariant(&*self); }
        let ghost s = self.bytes@;
        let ghost p0 = self.bit_pos as int;
        let mut zeros: u32 = 0;
        let mut pow: u64 = 1;
        loop
            invariant_except_break
                self.data() == s,
                s == old(self).data(),
                p0 == old(self).pos(),
                0 <= p0,
                zeros <= 32,
                self.pos() == p0 + zeros,
                pow == p2(zeros as nat),
                forall|j: int| p0 <= j < p0 + zeros ==> bit_at(s, j) == 0,
                p0 + zeros <= nbits(s),
            ensures
                self.data() == s,
                s == old(self).data(),
                p0 == old(self).pos(),
                zeros <= 32,
                pow == p2(zeros as nat),
                self.pos() == p0 + zeros + 1,
                forall|j: int| p0 <= j < p0 + zeros ==> bit_at(s, j) == 0,
                p0 + zeros < nbits(s),
                bit_at(s, p0 + zeros) == 1,
            decreases 33 - zeros,
        {
            let b = self.read_bit();
            match b {
                Ok(bit) => {
                    proof { lemma_bit_at_bound(s, p0 + zeros); }
                    if bit != 0 {
                        break;
                    }
                    if zeros == 32 {
                        proof {
                            lemma_count_zeros_full(s, p0, 33);
                        }
                        return Err(DecodeError::ExpGolombTooLong);
                    }
                    proof {
                        lemma_p2_mono((zeros + 1) as nat, 32);
                        lemma_p2_32();
                    }
                    zeros = zeros + 1;
                    pow = pow * 2;
                },
                Err(e) => {
                    proof {
                        lemma_count_zeros_to_end(s, p0, zeros as nat, 33);
                    }
                    return Err(e);
                },
            }
        }
        proof {
            lemma_count_zeros_exact(s, p0, zeros as nat, 33);
        }
        if zeros == 0 {
            return Ok(0);
        }
        let suffix = match self.read_bits(zeros) {
            Ok(v) => v,
            Err(e) => { return Err(e); }
        };
        proof {
            lemma_p2_mono(zeros as nat, 32);
            lemma_p2_mono(0, zeros as nat);
            lemma_p2_32();
            lemma_bits_value_bound(s, p0 + zeros + 1, zeros as nat);
        }
        let value: u64 = pow - 1 + suffix as u64;
        if value > u32::MAX as u64 {
            return Err(DecodeError::ExpGolombTooLong);
        }
        Ok(value as u32)
    }

    /// Signed Exp-Golomb code `se(v)`: maps ue k=0 → 0, 1 → 1, 2 → -1,
    /// 3 → 2, 4 → -2, ...
    pub fn read_se(&mut self) -> (res: Result<i32, DecodeError>)
        ensures
            final(self).data() == old(self).data(),
            (res, final(self).pos()) == se_spec(old(self).data(), old(self).pos()),
    {
        let k = match self.read_ue() {
            Ok(k) => k,
            Err(e) => { return Err(e); }
        };
        if k == 0 {
            Ok(0)
        } else if k & 1 == 1 {
            assert(k & 1 == k % 2) by (bit_vector);
            Ok(((k as u64 + 1) / 2) as i32)
        } else {
            assert(k & 1 == k % 2) by (bit_vector);
            Ok(-((k / 2) as i32))
        }
    }

    /// Truncated Exp-Golomb `te(v)` with maximum value `x`: for `x == 1`
    /// one inverted bit, otherwise `ue(v)`.
    pub fn read_te(&mut self, x: u32) -> (res: Result<u32, DecodeError>)
        ensures
            final(self).data() == old(self).data(),
            (res, final(self).pos()) == te_spec(old(self).data(), old(self).pos(), x),
    {
        if x == 1 {
            match self.read_bit() {
                Ok(b) => {
                    proof { lemma_bit_at_bound(old(self).data(), old(self).pos()); }
                    Ok(1 - b)
                },
                Err(e) => Err(e),
            }
        } else {
            self.read_ue()
        }
    }
}

} // verus!
