//! Annex-B NAL unit framing and emulation-prevention byte removal.

use vstd::prelude::*;
use vstd::slice::slice_subrange;

use crate::DecodeError;

pub mod nut;

verus! {

/// One framed NAL unit: its 1-byte header and payload, without the start code.
#[derive(Clone, Copy, Debug, PartialEq, Eq)]
pub struct NalUnit<'a> {
    pub bytes: &'a [u8],
}

impl<'a> NalUnit<'a> {
    /// `nal_unit_type`, the low 5 bits of the header byte. Fails on an empty
    /// unit or a set `forbidden_zero_bit`.
    pub fn unit_type(&self) -> (res: Result<u8, DecodeError>)
        ensures
            self.bytes@.len() == 0 ==> res == Err::<u8, DecodeError>(DecodeError::InvalidNalFraming),
            self.bytes@.len() > 0 && self.bytes@[0] >= 0x80 ==> res == Err::<u8, DecodeError>(
                DecodeError::InvalidNalFraming,
            ),
            self.bytes@.len() > 0 && self.bytes@[0] < 0x80 ==> res == Ok::<u8, DecodeError>(
                self.bytes@[0] % 32,
            ),
    {
        if self.bytes.len() == 0 {
            return Err(DecodeError::InvalidNalFraming);
        }
        let header = self.bytes[0];
        assert(header & 0x80 != 0 <==> header >= 0x80) by (bit_vector);
        assert(header & 0x1f == header % 32) by (bit_vector);
        if header & 0x80 != 0 {
            return Err(DecodeError::InvalidNalFraming);
        }
        Ok(header & 0x1f)
    }

    /// `nal_ref_idc`, bits 5-6 of the header byte.
    pub fn ref_idc(&self) -> (res: Result<u8, DecodeError>)
        ensures
            self.bytes@.len() == 0 ==> res == Err::<u8, DecodeError>(DecodeError::InvalidNalFraming),
            self.bytes@.len() > 0 ==> res == Ok::<u8, DecodeError>(((self.bytes@[0] / 32) % 4) as u8),
    {
        if self.bytes.len() == 0 {
            return Err(DecodeError::InvalidNalFraming);
        }
        let header = self.bytes[0];
        assert((header >> 5u8) & 0x03u8 == (header / 32) % 4) by (bit_vector);
        Ok((header >> 5u8) & 0x03u8)
    }

    /// Everything after the 1-byte header.
    pub fn payload(&self) -> (res: &'a [u8])
        requires
            self.bytes@.len() >= 1,
        ensures
            res@ == self.bytes@.subrange(1, self.bytes@.len() as int),
    {
        slice_subrange(self.bytes, 1, self.bytes.len())
    }
}

// ─────────────────────────────────────────────────────────────────────
// Start codes
// ─────────────────────────────────────────────────────────────────────

/// A start code (`00 00 01` or `00 00 00 01`) begins at index `i` of `s`.
pub open spec fn start_code_at(s: Seq<u8>, i: int) -> bool {
    &&& 0 <= i
    &&& i + 2 < s.len()
    &&& s[i] == 0
    &&& s[i + 1] == 0
    &&& (s[i + 2] == 1 || (s[i + 2] == 0 && i + 3 < s.len() && s[i + 3] == 1))
}

/// Length of the start code beginning at `i`.
pub open spec fn start_code_len(s: Seq<u8>, i: int) -> int {
    if s[i + 2] == 1 { 3 } else { 4 }
}

/// The first index `j >= i` at which a start code begins, if any.
pub open spec fn first_start_code(s: Seq<u8>, i: int) -> Option<int>
    decreases s.len() - i,
{
    if i < 0 || i + 2 >= s.len() {
        None
    } else if start_code_at(s, i) {
        Some(i)
    } else {
        first_start_code(s, i + 1)
    }
}

/// Index just past the last non-zero byte of `s[start..end]` (or `start`).
pub open spec fn trim_trailing_zeros(s: Seq<u8>, start: int, end: int) -> int
    decreases end - start,
{
    if end > start && s[end - 1] == 0 {
        trim_trailing_zeros(s, start, end - 1)
    } else {
        end
    }
}

proof fn lemma_first_start_code_props(s: Seq<u8>, i: int)
    requires
        0 <= i,
    ensures
        first_start_code(s, i) matches Some(j) ==> i <= j && start_code_at(s, j) && forall|k: int|
            i <= k < j ==> !start_code_at(s, k),
        first_start_code(s, i) is None ==> forall|k: int| i <= k ==> !start_code_at(s, k),
    decreases s.len() - i,
{
    if i + 2 >= s.len() {
    } else if start_code_at(s, i) {
    } else {
        lemma_first_start_code_props(s, i + 1);
    }
}

proof fn lemma_trim_props(s: Seq<u8>, start: int, end: int)
    requires
        start <= end,
    ensures
        start <= trim_trailing_zeros(s, start, end) <= end,
    decreases end - start,
{
    if end > start && s[end - 1] == 0 {
        lemma_trim_props(s, start, end - 1);
    }
}

/// Walks an Annex-B byte stream one NAL unit at a time.
pub struct NalUnitIterator<'a> {
    stream: &'a [u8],
    pos: usize,
}

/// Find the first start code at or after `from`: `(start_idx, payload_idx)`.
fn find_start_code(stream: &[u8], from: usize) -> (res: Option<(usize, usize)>)
    ensures
        res is None <==> first_start_code(stream@, from as int) is None,
        res matches Some((a, b)) ==> first_start_code(stream@, from as int) == Some(a as int) && b
            == a + start_code_len(stream@, a as int),
{
    if stream.len() < 3 {
        proof { reveal_with_fuel(first_start_code, 2); }
        return None;
    }
    let mut i = from;
    while i < stream.len() - 2
        invariant
            from <= i,
            stream.len() >= 3,
            first_start_code(stream@, from as int) == first_start_code(stream@, i as int),
        decreases stream.len() - i,
    {
        if stream[i] == 0 && stream[i + 1] == 0 {
            if stream[i + 2] == 1 {
                return Some((i, i + 3));
            }
            if stream[i + 2] == 0 && i + 3 < stream.len() && stream[i + 3] == 1 {
                return Some((i, i + 4));
            }
        }
        i += 1;
    }
    None
}

/// What `NalUnitIterator::next` yields at scan position `pos`: `None` when
/// no start code remains, else the unit's bytes (or the empty-unit error)
/// and the next scan position.
pub open spec fn next_unit_spec(s: Seq<u8>, pos: int) -> Option<(Result<Seq<u8>, DecodeError>, int)> {
    match first_start_code(s, pos) {
        None => None,
        Some(a) => {
            let start = a + start_code_len(s, a);
            let pend = match first_start_code(s, start) {
                Some(b) => b,
                None => s.len() as int,
            };
            let end = trim_trailing_zeros(s, start, pend);
            if end <= start {
                Some((Err(DecodeError::InvalidNalFraming), pos))
            } else {
                Some((Ok(s.subrange(start, end)), pend))
            }
        },
    }
}

/// A unit that `next_unit_spec` yields is nonempty, lies inside the
/// stream, and moves the scan position forward.
pub proof fn lemma_next_unit_advances(s: Seq<u8>, pos: int)
    requires
        0 <= pos,
    ensures
        next_unit_spec(s, pos) matches Some((Ok(u), q)) ==> pos < q <= s.len() && 1 <= u.len() <= s.len(),
{
    lemma_first_start_code_props(s, pos);
    if let Some(a) = first_start_code(s, pos) {
        let start = a + start_code_len(s, a);
        lemma_first_start_code_props(s, start);
        let pend = match first_start_code(s, start) {
            Some(b) => b,
            None => s.len() as int,
        };
        lemma_trim_props(s, start, pend);
    }
}

// ─────────────────────────────────────────────────────────────────────
// Framing round trip
// ─────────────────────────────────────────────────────────────────────

/// A unit that can sit between start codes: non-empty, not ending in a
/// zero byte, and free of `00 00 00` and `00 00 01` (as emulation
/// prevention guarantees).
pub open spec fn clean_unit(u: Seq<u8>) -> bool {
    &&& u.len() >= 1
    &&& u[u.len() - 1] != 0
    &&& forall|i: int| 0 <= i && i + 2 < u.len() && #[trigger] u[i] == 0 ==> !(u[i + 1] == 0 && u[i + 2] <= 1)
}

/// The Annex-B stream of `units`: each preceded by `00 00 00 01`.
pub open spec fn annexb(units: Seq<Seq<u8>>) -> Seq<u8>
    decreases units.len(),
{
    if units.len() == 0 {
        Seq::empty()
    } else {
        seq![0u8, 0u8, 0u8, 1u8] + units[0] + annexb(units.drop_first())
    }
}

/// The units that at most `fuel` successive calls of `next` yield from
/// position `pos`, stopping at the first call that yields no unit, and
/// the position after them.
pub open spec fn walk_units(s: Seq<u8>, pos: int, fuel: nat) -> (Seq<Seq<u8>>, int)
    decreases fuel,
{
    if fuel == 0 {
        (Seq::empty(), pos)
    } else {
        match next_unit_spec(s, pos) {
            Some((Ok(u), q)) => {
                let (rest, e) = walk_units(s, q, (fuel - 1) as nat);
                (seq![u] + rest, e)
            },
            _ => (Seq::empty(), pos),
        }
    }
}

proof fn lemma_start_code_shift(p: Seq<u8>, t: Seq<u8>, j: int)
    requires
        0 <= j,
    ensures
        start_code_at(p + t, p.len() + j) == start_code_at(t, j),
        start_code_at(t, j) ==> start_code_len(p + t, p.len() + j) == start_code_len(t, j),
{
    let s = p + t;
    let o = p.len() as int;
    if j + 2 < t.len() {
        assert(s[o + j] == t[j]);
        assert(s[o + j + 1] == t[j + 1]);
        assert(s[o + j + 2] == t[j + 2]);
        if j + 3 < t.len() {
            assert(s[o + j + 3] == t[j + 3]);
        }
    }
}

proof fn lemma_first_start_code_shift(p: Seq<u8>, t: Seq<u8>, j: int)
    requires
        0 <= j,
    ensures
        first_start_code(p + t, p.len() + j) == match first_start_code(t, j) {
            Some(x) => Some(x + p.len()),
            None => None::<int>,
        },
    decreases t.len() - j,
{
    lemma_start_code_shift(p, t, j);
    if j + 2 < t.len() && !start_code_at(t, j) {
        lemma_first_start_code_shift(p, t, j + 1);
        assert(p.len() + j + 1 == p.len() + (j + 1));
    }
}

proof fn lemma_trim_shift(p: Seq<u8>, t: Seq<u8>, a: int, b: int)
    requires
        0 <= a <= b <= t.len(),
    ensures
        trim_trailing_zeros(p + t, p.len() + a, p.len() + b) == p.len() + trim_trailing_zeros(t, a, b),
    decreases b - a,
{
    if b > a {
        assert((p + t)[p.len() + b - 1] == t[b - 1]);
        if t[b - 1] == 0 {
            lemma_trim_shift(p, t, a, b - 1);
        }
    }
}

proof fn lemma_next_unit_shift(p: Seq<u8>, t: Seq<u8>, j: int)
    requires
        0 <= j,
    ensures
        next_unit_spec(p + t, p.len() + j) == match next_unit_spec(t, j) {
            Some((r, q)) => Some((r, q + p.len())),
            None => None::<(Result<Seq<u8>, DecodeError>, int)>,
        },
{
    let s = p + t;
    let o = p.len() as int;
    lemma_first_start_code_shift(p, t, j);
    lemma_first_start_code_props(t, j);
    if let Some(a) = first_start_code(t, j) {
        lemma_start_code_shift(p, t, a);
        let start = a + start_code_len(t, a);
        assert(o + a + start_code_len(s, o + a) == o + start);
        lemma_first_start_code_shift(p, t, start);
        lemma_first_start_code_props(t, start);
        let pend = match first_start_code(t, start) {
            Some(b) => b,
            None => t.len() as int,
        };
        assert(start <= pend <= t.len());
        lemma_trim_shift(p, t, start, pend);
        let end = trim_trailing_zeros(t, start, pend);
        lemma_trim_props(t, start, pend);
        if end > start {
            assert(s.subrange(o + start, o + end) =~= t.subrange(start, end));
        }
    }
}

proof fn lemma_walk_shift(p: Seq<u8>, t: Seq<u8>, j: int, fuel: nat)
    requires
        0 <= j,
    ensures
        walk_units(p + t, p.len() + j, fuel) == (walk_units(t, j, fuel).0, walk_units(t, j, fuel).1 + p.len()),
    decreases fuel,
{
    if fuel > 0 {
        lemma_next_unit_shift(p, t, j);
        lemma_first_start_code_props(t, j);
        if let Some((Ok(u), q)) = next_unit_spec(t, j) {
            lemma_next_unit_advances(t, j);
            lemma_walk_shift(p, t, q, (fuel - 1) as nat);
            assert(p.len() + q == q + p.len());
        }
    }
}

/// No start code begins in `[i, j)`, so the search from `i` is the search
/// from `j`.
proof fn lemma_first_start_code_skip(s: Seq<u8>, i: int, j: int)
    requires
        0 <= i <= j,
        forall|k: int| i <= k < j ==> !start_code_at(s, k),
    ensures
        first_start_code(s, i) == first_start_code(s, j),
    decreases j - i,
{
    if i < j {
        assert(!start_code_at(s, i));
        lemma_first_start_code_skip(s, i + 1, j);
    }
}

proof fn lemma_first_unit(u: Seq<u8>, t: Seq<u8>)
    requires
        clean_unit(u),
        t.len() == 0 || (t.len() >= 4 && t[0] == 0 && t[1] == 0 && t[2] == 0 && t[3] == 1),
    ensures
        next_unit_spec(seq![0u8, 0u8, 0u8, 1u8] + u + t, 0) == Some((Ok::<Seq<u8>, DecodeError>(u), 4 + u.len() as int)),
{
    let h = seq![0u8, 0u8, 0u8, 1u8];
    let s = h + u + t;
    let n = u.len() as int;
    assert(s[0] == 0 && s[1] == 0 && s[2] == 0 && s[3] == 1);
    assert(start_code_at(s, 0));
    assert(first_start_code(s, 0) == Some(0int));
    assert(start_code_len(s, 0) == 4);
    assert forall|k: int| 4 <= k < 4 + n implies !start_code_at(s, k) by {
        assert(s[k] == u[k - 4]);
        if k + 1 < 4 + n {
            assert(s[k + 1] == u[k - 3]);
        }
        if k + 2 < 4 + n {
            assert(s[k + 2] == u[k - 2]);
            if u[k - 4] == 0 {
                assert(!(u[k - 4 + 1] == 0 && u[k - 4 + 2] <= 1));
            }
        }
        assert(s[3 + n] == u[n - 1]);
    }
    lemma_first_start_code_skip(s, 4, 4 + n);
    if t.len() > 0 {
        assert(s[4 + n] == t[0] && s[5 + n] == t[1] && s[6 + n] == t[2] && s[7 + n] == t[3]);
        assert(start_code_at(s, 4 + n));
        assert(first_start_code(s, 4 + n) == Some(4 + n));
    } else {
        assert(first_start_code(s, 4 + n) is None);
    }
    assert(s[4 + n - 1] == u[n - 1]);
    assert(trim_trailing_zeros(s, 4, 4 + n) == 4 + n);
    assert(s.subrange(4, 4 + n) =~= u);
}

/// Framing clean units with start codes and walking the stream gives the
/// units back, in order, after which no start code remains.
pub proof fn lemma_annexb_round_trip(units: Seq<Seq<u8>>)
    requires
        forall|k: int| 0 <= k < units.len() ==> clean_unit(#[trigger] units[k]),
    ensures
        walk_units(annexb(units), 0, units.len()) == (units, annexb(units).len() as int),
        next_unit_spec(annexb(units), annexb(units).len() as int) is None,
    decreases units.len(),
{
    let s = annexb(units);
    if units.len() > 0 {
        let u = units[0];
        let rest = units.drop_first();
        assert forall|k: int| 0 <= k < rest.len() implies clean_unit(#[trigger] rest[k]) by {
            assert(rest[k] == units[k + 1]);
        }
        lemma_annexb_round_trip(rest);
        let t = annexb(rest);
        let h = seq![0u8, 0u8, 0u8, 1u8] + u;
        assert(s == h + t);
        assert(seq![0u8, 0u8, 0u8, 1u8] + u + t == s);
        if rest.len() > 0 {
            assert(t == seq![0u8, 0u8, 0u8, 1u8] + rest[0] + annexb(rest.drop_first()));
            assert(t[0] == 0 && t[1] == 0 && t[2] == 0 && t[3] == 1);
        }
        lemma_first_unit(u, t);
        assert(h.len() == 4 + u.len());
        lemma_walk_shift(h, t, 0, (units.len() - 1) as nat);
        assert(h.len() + 0 == 4 + u.len());
        assert(seq![u] + rest =~= units);
    }
}

impl<'a> NalUnitIterator<'a> {
    /// The stream being walked.
    pub closed spec fn stream(&self) -> Seq<u8> {
        self.stream@
    }

    /// The scan position.
    pub closed spec fn position(&self) -> int {
        self.pos as int
    }

    /// An iterator at the start of `stream`.
    pub fn new(stream: &'a [u8]) -> (r: Self)
        ensures
            r.stream() == stream@,
            r.position() == 0,
    {
        NalUnitIterator { stream, pos: 0 }
    }

    /// The next NAL unit: the bytes between the next start code and the one
    /// after it (or the end), without trailing zero bytes. `None` when no
    /// start code remains; an empty unit is an `InvalidNalFraming` error
    /// that leaves the position where it was.
    pub fn next(&mut self) -> (res: Option<Result<NalUnit<'a>, DecodeError>>)
        ensures
            final(self).stream() == old(self).stream(),
            ({
                let s = old(self).stream();
                match first_start_code(s, old(self).position()) {
                    None => res is None && final(self).position() == old(self).position(),
                    Some(a) => {
                        let start = a + start_code_len(s, a);
                        let pend = match first_start_code(s, start) {
                            Some(b) => b,
                            None => s.len() as int,
                        };
                        let end = trim_trailing_zeros(s, start, pend);
                        if end <= start {
                            res == Some(Err::<NalUnit<'a>, DecodeError>(DecodeError::InvalidNalFraming))
                                && final(self).position() == old(self).position()
                        } else {
                            &&& res matches Some(Ok(u))
                            &&& u.bytes@ == s.subrange(start, end)
                            &&& final(self).position() == pend
                        }
                    },
                }
            }),
            final(self).position() >= old(self).position(),
            res matches Some(Ok(_)) ==> final(self).position() > old(self).position(),
            match res {
                None => next_unit_spec(old(self).stream(), old(self).position()) is None,
                Some(Ok(u)) => next_unit_spec(old(self).stream(), old(self).position())
                    == Some((Ok::<Seq<u8>, DecodeError>(u.bytes@), final(self).position())),
                Some(Err(e)) => next_unit_spec(old(self).stream(), old(self).position())
                    == Some((Err::<Seq<u8>, DecodeError>(e), final(self).position())),
            },
            final(self).position() <= final(self).stream().len() || final(self).position()
                == old(self).position(),
    {
        let (a, payload_start) = match find_start_code(self.stream, self.pos) {
            Some(p) => p,
            None => { return None; },
        };
        proof {
            lemma_first_start_code_props(self.stream@, self.pos as int);
        }
        let payload_end = match find_start_code(self.stream, payload_start) {
            Some((next_start_idx, _)) => next_start_idx,
            None => self.stream.len(),
        };
        proof {
            lemma_first_start_code_props(self.stream@, payload_start as int);
        }
        let mut end = payload_end;
        while end > payload_start && self.stream[end - 1] == 0
            invariant
                payload_start <= end <= payload_end <= self.stream@.len(),
                trim_trailing_zeros(self.stream@, payload_start as int, payload_end as int)
                    == trim_trailing_zeros(self.stream@, payload_start as int, end as int),
            decreases end,
        {
            end -= 1;
        }
        if end <= payload_start {
            return Some(Err(DecodeError::InvalidNalFraming));
        }
        self.pos = payload_end;
        Some(Ok(NalUnit { bytes: slice_subrange(self.stream, payload_start, end) }))
    }
}

// ─────────────────────────────────────────────────────────────────────
// Emulation prevention (NAL → RBSP)
// ─────────────────────────────────────────────────────────────────────

/// The pattern `00 00 03` begins at index `i` of `s`.
pub open spec fn emulation_at(s: Seq<u8>, i: int) -> bool {
    0 <= i && i + 2 < s.len() && s[i] == 0 && s[i + 1] == 0 && s[i + 2] == 3
}

/// The RBSP of `s[i..]`: every `00 00 03` loses its `03`, scanning left to
/// right without re-reading the two zeros.
pub open spec fn rbsp_from(s: Seq<u8>, i: int) -> Seq<u8>
    decreases s.len() - i,
{
    if i < 0 || i >= s.len() {
        Seq::empty()
    } else if emulation_at(s, i) {
        seq![0u8, 0u8] + rbsp_from(s, i + 3)
    } else {
        seq![s[i]] + rbsp_from(s, i + 1)
    }
}

/// Remove emulation-prevention bytes: each `00 00 03` becomes `00 00`.
pub fn strip_emulation_prevention(payload: &[u8]) -> (out: Vec<u8>)
    ensures
        out@ == rbsp_from(payload@, 0),
        out@.len() <= payload@.len(),
{
    let mut out: Vec<u8> = Vec::with_capacity(payload.len());
    let mut i: usize = 0;
    proof { lemma_rbsp_len(payload@, 0); }
    while i < payload.len()
        invariant
            i <= payload@.len(),
            out@ + rbsp_from(payload@, i as int) == rbsp_from(payload@, 0),
            out@.len() <= i,
        decreases payload@.len() - i,
    {
        proof { lemma_rbsp_len(payload@, i as int); }
        if payload.len() - i > 2 && payload[i] == 0 && payload[i + 1] == 0 && payload[i + 2] == 0x03 {
            out.push(0);
            out.push(0);
            i += 3;
        } else {
            out.push(payload[i]);
            i += 1;
        }
    }
    out
}

proof fn lemma_rbsp_len(s: Seq<u8>, i: int)
    requires
        0 <= i <= s.len(),
    ensures
        rbsp_from(s, i).len() <= s.len() - i,
    decreases s.len() - i,
{
    if i < s.len() {
        if emulation_at(s, i) {
            lemma_rbsp_len(s, i + 3);
        } else {
            lemma_rbsp_len(s, i + 1);
        }
    }
}

/// A payload with no `00 00 03` pattern is its own RBSP.
pub proof fn lemma_rbsp_identity(s: Seq<u8>)
    requires
        forall|i: int| !emulation_at(s, i),
    ensures
        rbsp_from(s, 0) == s,
{
    lemma_rbsp_identity_from(s, 0);
    assert(s.subrange(0, s.len() as int) == s);
}

proof fn lemma_rbsp_identity_from(s: Seq<u8>, i: int)
    requires
        0 <= i <= s.len(),
        forall|k: int| !emulation_at(s, k),
    ensures
        rbsp_from(s, i) == s.subrange(i, s.len() as int),
    decreases s.len() - i,
{
    if i < s.len() {
        lemma_rbsp_identity_from(s, i + 1);
        assert(seq![s[i]] + s.subrange(i + 1, s.len() as int) == s.subrange(i, s.len() as int));
    } else {
        assert(s.subrange(i, s.len() as int) == Seq::<u8>::empty());
    }
}

} // verus!
