//! Little-endian byte encoding helpers.

use vstd::prelude::*;

verus! {

/// The `n` low bytes of `x`, little-endian.
pub open spec fn le_bytes(x: int, n: nat) -> Seq<u8>
    decreases n,
{
    if n == 0 {
        Seq::empty()
    } else {
        seq![(x % 256) as u8] + le_bytes(x / 256, (n - 1) as nat)
    }
}

/// `le_bytes(x, n)` is `n` bytes long.
pub proof fn lemma_le_bytes_len(x: int, n: nat)
    ensures
        le_bytes(x, n).len() == n,
    decreases n,
{
    if n > 0 {
        lemma_le_bytes_len(x / 256, (n - 1) as nat);
    }
}

proof fn lemma_low_byte(v: u64)
    by (bit_vector)
    ensures
        v & 0xffu64 == v % 256,
        v >> 8u64 == v / 256,
{
}

/// Append the `n` low bytes of `x`, little-endian.
pub fn push_le(buf: &mut Vec<u8>, x: u64, n: usize)
    requires
        n <= 8,
    ensures
        final(buf)@ == old(buf)@ + le_bytes(x as int, n as nat),
{
    let mut v = x;
    let mut i: usize = 0;
    while i < n
        invariant
            i <= n,
            old(buf)@ + le_bytes(x as int, n as nat) == buf@ + le_bytes(v as int, (n - i) as nat),
        decreases n - i,
    {
        proof { lemma_low_byte(v); }
        let ghost rest = le_bytes(v as int, (n - i) as nat);
        assert(rest == seq![(v % 256) as u8] + le_bytes(v as int / 256, (n - i - 1) as nat));
        buf.push((v & 0xff) as u8);
        v = v >> 8;
        i += 1;
        assert(old(buf)@ + le_bytes(x as int, n as nat) =~= buf@ + le_bytes(v as int, (n - i) as nat));
    }
}

/// Append all of `bytes`.
pub fn push_all(buf: &mut Vec<u8>, bytes: &[u8])
    ensures
        final(buf)@ == old(buf)@ + bytes@,
{
    let mut i: usize = 0;
    while i < bytes.len()
        invariant
            i <= bytes@.len(),
            buf@ == old(buf)@ + bytes@.subrange(0, i as int),
        decreases bytes@.len() - i,
    {
        buf.push(bytes[i]);
        i += 1;
        assert(buf@ =~= old(buf)@ + bytes@.subrange(0, i as int));
    }
    assert(bytes@.subrange(0, bytes@.len() as int) =~= bytes@);
}

} // verus!
