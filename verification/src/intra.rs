//! Intra prediction for baseline I-frames: the nine Intra_4×4 modes
//! (§8.3.1.2), plus the Intra_16×16 and chroma mode enumerations.

use vstd::prelude::*;

use crate::DecodeError;

verus! {

/// The nine Intra_4×4 prediction modes (Table 8-2), in index order 0..=8.
#[derive(Clone, Copy, Debug, PartialEq, Eq)]
pub enum Intra4x4Mode {
    Vertical,
    Horizontal,
    Dc,
    DiagonalDownLeft,
    DiagonalDownRight,
    VerticalRight,
    HorizontalDown,
    VerticalLeft,
    HorizontalUp,
}

/// The mode with index `idx`, if `idx <= 8`.
pub open spec fn intra4x4_mode_of(idx: int) -> Option<Intra4x4Mode> {
    if idx == 0 {
        Some(Intra4x4Mode::Vertical)
    } else if idx == 1 {
        Some(Intra4x4Mode::Horizontal)
    } else if idx == 2 {
        Some(Intra4x4Mode::Dc)
    } else if idx == 3 {
        Some(Intra4x4Mode::DiagonalDownLeft)
    } else if idx == 4 {
        Some(Intra4x4Mode::DiagonalDownRight)
    } else if idx == 5 {
        Some(Intra4x4Mode::VerticalRight)
    } else if idx == 6 {
        Some(Intra4x4Mode::HorizontalDown)
    } else if idx == 7 {
        Some(Intra4x4Mode::VerticalLeft)
    } else if idx == 8 {
        Some(Intra4x4Mode::HorizontalUp)
    } else {
        None
    }
}

/// The index of a mode (inverse of `intra4x4_mode_of`).
pub open spec fn intra4x4_index(m: Intra4x4Mode) -> int {
    match m {
        Intra4x4Mode::Vertical => 0,
        Intra4x4Mode::Horizontal => 1,
        Intra4x4Mode::Dc => 2,
        Intra4x4Mode::DiagonalDownLeft => 3,
        Intra4x4Mode::DiagonalDownRight => 4,
        Intra4x4Mode::VerticalRight => 5,
        Intra4x4Mode::HorizontalDown => 6,
        Intra4x4Mode::VerticalLeft => 7,
        Intra4x4Mode::HorizontalUp => 8,
    }
}

impl Intra4x4Mode {
    /// Decode `Intra4x4PredMode` (0..=8).
    pub fn from_index(idx: u8) -> (res: Result<Self, DecodeError>)
        ensures
            intra4x4_mode_of(idx as int) matches Some(m) ==> res == Ok::<Self, DecodeError>(m),
            intra4x4_mode_of(idx as int) is None ==> res == Err::<Self, DecodeError>(
                DecodeError::OutOfScope("Intra4x4 mode out of range"),
            ),
    {
        match idx {
            0 => Ok(Intra4x4Mode::Vertical),
            1 => Ok(Intra4x4Mode::Horizontal),
            2 => Ok(Intra4x4Mode::Dc),
            3 => Ok(Intra4x4Mode::DiagonalDownLeft),
            4 => Ok(Intra4x4Mode::DiagonalDownRight),
            5 => Ok(Intra4x4Mode::VerticalRight),
            6 => Ok(Intra4x4Mode::HorizontalDown),
            7 => Ok(Intra4x4Mode::VerticalLeft),
            8 => Ok(Intra4x4Mode::HorizontalUp),
            _ => Err(DecodeError::OutOfScope("Intra4x4 mode out of range")),
        }
    }
}

/// The four Intra_16×16 prediction modes (Table 8-4), in index order 0..=3.
#[derive(Clone, Copy, Debug, PartialEq, Eq)]
pub enum Intra16x16Mode {
    Vertical,
    Horizontal,
    Dc,
    Plane,
}

/// The Intra 16×16 mode of index `idx` (0..=3), if any.
pub open spec fn intra16x16_mode_of(idx: int) -> Option<Intra16x16Mode> {
    if idx == 0 {
        Some(Intra16x16Mode::Vertical)
    } else if idx == 1 {
        Some(Intra16x16Mode::Horizontal)
    } else if idx == 2 {
        Some(Intra16x16Mode::Dc)
    } else if idx == 3 {
        Some(Intra16x16Mode::Plane)
    } else {
        None
    }
}

impl Intra16x16Mode {
    /// Decode `Intra16x16PredMode` (0..=3).
    pub fn from_index(idx: u8) -> (res: Result<Self, DecodeError>)
        ensures
            intra16x16_mode_of(idx as int) matches Some(m) ==> res == Ok::<Self, DecodeError>(m),
            intra16x16_mode_of(idx as int) is None ==> res == Err::<Self, DecodeError>(
                DecodeError::OutOfScope("Intra16x16 mode out of range"),
            ),
    {
        match idx {
            0 => Ok(Intra16x16Mode::Vertical),
            1 => Ok(Intra16x16Mode::Horizontal),
            2 => Ok(Intra16x16Mode::Dc),
            3 => Ok(Intra16x16Mode::Plane),
            _ => Err(DecodeError::OutOfScope("Intra16x16 mode out of range")),
        }
    }
}

/// The four chroma prediction modes (`intra_chroma_pred_mode`, Table 7-16),
/// in index order 0..=3.
#[derive(Clone, Copy, Debug, PartialEq, Eq)]
pub enum IntraChromaMode {
    Dc,
    Horizontal,
    Vertical,
    Plane,
}

/// The chroma intra mode of index `idx` (0..=3), if any.
pub open spec fn intra_chroma_mode_of(idx: int) -> Option<IntraChromaMode> {
    if idx == 0 {
        Some(IntraChromaMode::Dc)
    } else if idx == 1 {
        Some(IntraChromaMode::Horizontal)
    } else if idx == 2 {
        Some(IntraChromaMode::Vertical)
    } else if idx == 3 {
        Some(IntraChromaMode::Plane)
    } else {
        None
    }
}

impl IntraChromaMode {
    /// Decode `intra_chroma_pred_mode` (0..=3).
    pub fn from_index(idx: u8) -> (res: Result<Self, DecodeError>)
        ensures
            intra_chroma_mode_of(idx as int) matches Some(m) ==> res == Ok::<Self, DecodeError>(m),
            intra_chroma_mode_of(idx as int) is None ==> res == Err::<Self, DecodeError>(
                DecodeError::OutOfScope("intra chroma mode out of range"),
            ),
    {
        match idx {
            0 => Ok(IntraChromaMode::Dc),
            1 => Ok(IntraChromaMode::Horizontal),
            2 => Ok(IntraChromaMode::Vertical),
            3 => Ok(IntraChromaMode::Plane),
            _ => Err(DecodeError::OutOfScope("intra chroma mode out of range")),
        }
    }
}

// ─────────────────────────────────────────────────────────────────────
// Neighbor samples
// ─────────────────────────────────────────────────────────────────────

/// The samples around a 4×4 block: the row above (`top`), the four above
/// and to the right (`top_right`), the column to the left (`left`) and the
/// corner (`top_left`); `None` where unavailable.
#[derive(Clone, Copy, Debug)]
pub struct Neighbors4x4 {
    pub top_left: Option<u8>,
    pub top: Option<[u8; 4]>,
    pub top_right: Option<[u8; 4]>,
    pub left: Option<[u8; 4]>,
}

impl Neighbors4x4 {
    /// All four neighbors available.
    pub fn all(top: [u8; 4], top_right: [u8; 4], left: [u8; 4], top_left: u8) -> (r: Self)
        ensures
            r == (Neighbors4x4 {
                top: Some(top),
                top_right: Some(top_right),
                left: Some(left),
                top_left: Some(top_left),
            }),
    {
        Neighbors4x4 { top: Some(top), top_right: Some(top_right), left: Some(left), top_left: Some(top_left) }
    }

    /// No neighbors available (top-left corner of the frame).
    pub fn none() -> (r: Self)
        ensures
            r == (Neighbors4x4 { top: None, top_right: None, left: None, top_left: None }),
    {
        Neighbors4x4 { top: None, top_right: None, left: None, top_left: None }
    }
}

// ─────────────────────────────────────────────────────────────────────
// Prediction model
// ─────────────────────────────────────────────────────────────────────

/// `(a + 2b + c + 2) >> 2`.
pub open spec fn tap3s(a: int, b: int, c: int) -> int {
    (a + 2 * b + c + 2) / 4
}

/// `(a + b + 1) >> 1`.
pub open spec fn tap2s(a: int, b: int) -> int {
    (a + b + 1) / 2
}

/// `(a + 3b + 2) >> 2`.
pub open spec fn tap13s(a: int, b: int) -> int {
    (a + 3 * b + 2) / 4
}

/// The neighbors a mode needs are present.
pub open spec fn mode_available(mode: Intra4x4Mode, n: Neighbors4x4) -> bool {
    match mode {
        Intra4x4Mode::Vertical => n.top is Some,
        Intra4x4Mode::Horizontal => n.left is Some,
        Intra4x4Mode::Dc => true,
        Intra4x4Mode::DiagonalDownLeft => n.top is Some && n.top_right is Some,
        Intra4x4Mode::DiagonalDownRight => n.top is Some && n.left is Some && n.top_left is Some,
        Intra4x4Mode::VerticalRight => n.top is Some && n.left is Some && n.top_left is Some,
        Intra4x4Mode::HorizontalDown => n.top is Some && n.left is Some && n.top_left is Some,
        Intra4x4Mode::VerticalLeft => n.top is Some && n.top_right is Some,
        Intra4x4Mode::HorizontalUp => n.left is Some,
    }
}

/// Sample `i` of the row above, where `i == -1` is the corner.
pub open spec fn top_s(n: Neighbors4x4, i: int) -> int {
    if i == -1 { n.top_left->0 as int } else { n.top->0[i] as int }
}

/// Sample `j` of the left column, where `j == -1` is the corner.
pub open spec fn left_s(n: Neighbors4x4, j: int) -> int {
    if j == -1 { n.top_left->0 as int } else { n.left->0[j] as int }
}

/// Sample `i` of the eight samples above and above-right.
pub open spec fn above8(n: Neighbors4x4, i: int) -> int {
    if i < 4 { n.top->0[i] as int } else { n.top_right->0[i - 4] as int }
}

/// Sample `k` (0..=6) of the Diagonal_Down_Left axis (§8.3.1.2.4): the
/// 3-tap filter centred on above-sample `k + 1`, and for `k == 6` the
/// last two samples weighted 1:3.
pub open spec fn ddl_axis(n: Neighbors4x4, k: int) -> int {
    if k < 6 {
        tap3s(above8(n, k), above8(n, k + 1), above8(n, k + 2))
    } else {
        tap13s(above8(n, 6), above8(n, 7))
    }
}

/// Sample `k` of the Diagonal_Down_Right axis `l3 l2 l1 l0 tl t0 t1 t2 t3`.
pub open spec fn ddr_line(n: Neighbors4x4, k: int) -> int {
    if k < 4 { n.left->0[3 - k] as int } else if k == 4 { n.top_left->0 as int } else { n.top->0[k - 5] as int }
}

/// The DC value.
pub open spec fn dc_value(n: Neighbors4x4) -> int {
    match (n.top, n.left) {
        (Some(t), Some(l)) => (t[0] + t[1] + t[2] + t[3] + l[0] + l[1] + l[2] + l[3] + 4) / 8,
        (Some(t), None) => (t[0] + t[1] + t[2] + t[3] + 2) / 4,
        (None, Some(l)) => (l[0] + l[1] + l[2] + l[3] + 2) / 4,
        (None, None) => 128,
    }
}

/// The predicted sample at column `x`, row `y` (both 0..4), given the
/// needed neighbors are available.
pub open spec fn pred_pixel(mode: Intra4x4Mode, n: Neighbors4x4, x: int, y: int) -> int {
    match mode {
        Intra4x4Mode::Vertical => n.top->0[x] as int,
        Intra4x4Mode::Horizontal => n.left->0[y] as int,
        Intra4x4Mode::Dc => dc_value(n),
        Intra4x4Mode::DiagonalDownLeft => ddl_axis(n, x + y),
        Intra4x4Mode::DiagonalDownRight => {
            let k = 3 + x - y;
            tap3s(ddr_line(n, k), ddr_line(n, k + 1), ddr_line(n, k + 2))
        },
        Intra4x4Mode::VerticalRight => {
            let z = 2 * x - y;
            let i = x - y / 2 - 1;
            if z == 0 || z == 2 || z == 4 || z == 6 {
                tap2s(top_s(n, i), top_s(n, i + 1))
            } else if z == 1 || z == 3 || z == 5 || z == 7 {
                tap3s(top_s(n, i - 1), top_s(n, i), top_s(n, i + 1))
            } else if z == -1 {
                tap3s(left_s(n, 0), n.top_left->0 as int, top_s(n, 0))
            } else {
                tap3s(left_s(n, y - 1), left_s(n, y - 2), left_s(n, y - 3))
            }
        },
        Intra4x4Mode::HorizontalDown => {
            let z = 2 * y - x;
            let j = y - x / 2 - 1;
            if z == 0 || z == 2 || z == 4 || z == 6 {
                tap2s(left_s(n, j), left_s(n, j + 1))
            } else if z == 1 || z == 3 || z == 5 || z == 7 {
                tap3s(left_s(n, j - 1), left_s(n, j), left_s(n, j + 1))
            } else if z == -1 {
                tap3s(left_s(n, 0), n.top_left->0 as int, top_s(n, 0))
            } else {
                tap3s(top_s(n, x - 1), top_s(n, x - 2), top_s(n, x - 3))
            }
        },
        Intra4x4Mode::VerticalLeft => {
            let i = x + y / 2;
            if y % 2 == 0 {
                tap2s(above8(n, i), above8(n, i + 1))
            } else {
                tap3s(above8(n, i), above8(n, i + 1), above8(n, i + 2))
            }
        },
        Intra4x4Mode::HorizontalUp => {
            let z = x + 2 * y;
            let l = n.left->0;
            let j = y + x / 2;
            if z == 0 || z == 2 || z == 4 {
                tap2s(l[j] as int, l[j + 1] as int)
            } else if z == 1 || z == 3 {
                tap3s(l[j] as int, l[j + 1] as int, l[j + 2] as int)
            } else if z == 5 || z == 6 {
                tap13s(l[2] as int, l[3] as int)
            } else {
                l[3] as int
            }
        },
    }
}

/// The predicted block in raster order.
pub open spec fn pred_block(mode: Intra4x4Mode, n: Neighbors4x4) -> Seq<u8> {
    Seq::new(16, |k: int| pred_pixel(mode, n, k % 4, k / 4) as u8)
}

/// The error a missing neighbor produces.
pub open spec fn neighbor_missing() -> DecodeError {
    DecodeError::OutOfScope("intra4x4: required neighbor unavailable")
}

// ─────────────────────────────────────────────────────────────────────
// Executable prediction
// ─────────────────────────────────────────────────────────────────────

proof fn lemma_shr_div(v: u32)
    by (bit_vector)
    ensures
        v >> 1u32 == v / 2,
        v >> 2u32 == v / 4,
        v >> 3u32 == v / 8,
{
}

proof fn lemma_half_isize(v: isize)
    by (bit_vector)
    ensures
        0 <= v < 4 ==> v >> 1isize == v / 2,
{
}

/// `(a + 2b + c + 2) >> 2`.
pub fn tap3(a: u8, b: u8, c: u8) -> (r: u8)
    ensures
        r as int == tap3s(a as int, b as int, c as int),
{
    let v = a as u32 + 2 * b as u32 + c as u32 + 2;
    proof { lemma_shr_div(v); }
    (v >> 2) as u8
}

/// `(a + b + 1) >> 1`.
pub fn tap2(a: u8, b: u8) -> (r: u8)
    ensures
        r as int == tap2s(a as int, b as int),
{
    let v = a as u32 + b as u32 + 1;
    proof { lemma_shr_div(v); }
    (v >> 1) as u8
}

fn tap13(a: u8, b: u8) -> (r: u8)
    ensures
        r as int == tap13s(a as int, b as int),
{
    let v = a as u32 + 3 * b as u32 + 2;
    proof { lemma_shr_div(v); }
    (v >> 2) as u8
}

/// Store `v` at column `x`, row `y`.
pub fn at(out: &mut [u8; 16], x: usize, y: usize, v: u8)
    requires
        x < 4,
        y < 4,
    ensures
        final(out)@ == old(out)@.update(y * 4 + x, v),
{
    out[y * 4 + x] = v;
}

/// The error for a mode whose neighbor is missing.
pub fn err_neighbor_missing() -> (e: DecodeError)
    ensures
        e == neighbor_missing(),
{
    DecodeError::OutOfScope("intra4x4: required neighbor unavailable")
}

fn pred_vertical(n: &Neighbors4x4) -> (res: Result<[u8; 16], DecodeError>)
    ensures
        !mode_available(Intra4x4Mode::Vertical, *n) ==> res == Err::<[u8; 16], DecodeError>(neighbor_missing()),
        mode_available(Intra4x4Mode::Vertical, *n) ==> (res matches Ok(o) && o@ == pred_block(Intra4x4Mode::Vertical, *n)),
{
    let t = match n.top { Some(t) => t, None => { return Err(err_neighbor_missing()); } };
    let mut out = [0u8; 16];
    for k in 0..16usize
        invariant
            n.top == Some(t),
            forall|j: int| 0 <= j < k ==> out[j] == #[trigger] pred_block(Intra4x4Mode::Vertical, *n)[j],
    {
        at(&mut out, k % 4, k / 4, t[k % 4]);
    }
    assert(out@ =~= pred_block(Intra4x4Mode::Vertical, *n));
    Ok(out)
}

fn pred_horizontal(n: &Neighbors4x4) -> (res: Result<[u8; 16], DecodeError>)
    ensures
        !mode_available(Intra4x4Mode::Horizontal, *n) ==> res == Err::<[u8; 16], DecodeError>(neighbor_missing()),
        mode_available(Intra4x4Mode::Horizontal, *n) ==> (res matches Ok(o) && o@ == pred_block(Intra4x4Mode::Horizontal, *n)),
{
    let l = match n.left { Some(l) => l, None => { return Err(err_neighbor_missing()); } };
    let mut out = [0u8; 16];
    for k in 0..16usize
        invariant
            n.left == Some(l),
            forall|j: int| 0 <= j < k ==> out[j] == #[trigger] pred_block(Intra4x4Mode::Horizontal, *n)[j],
    {
        at(&mut out, k % 4, k / 4, l[k / 4]);
    }
    assert(out@ =~= pred_block(Intra4x4Mode::Horizontal, *n));
    Ok(out)
}

fn pred_dc(n: &Neighbors4x4) -> (res: Result<[u8; 16], DecodeError>)
    ensures
        (res matches Ok(o) && o@ == pred_block(Intra4x4Mode::Dc, *n)),
{
    let dc: u32 = match (n.top, n.left) {
        (Some(t), Some(l)) => {
            let sum: u32 = t[0] as u32 + t[1] as u32 + t[2] as u32 + t[3] as u32 + l[0] as u32
                + l[1] as u32 + l[2] as u32 + l[3] as u32;
            proof { lemma_shr_div((sum + 4) as u32); }
            (sum + 4) >> 3
        },
        (Some(t), None) => {
            let sum: u32 = t[0] as u32 + t[1] as u32 + t[2] as u32 + t[3] as u32;
            proof { lemma_shr_div((sum + 2) as u32); }
            (sum + 2) >> 2
        },
        (None, Some(l)) => {
            let sum: u32 = l[0] as u32 + l[1] as u32 + l[2] as u32 + l[3] as u32;
            proof { lemma_shr_div((sum + 2) as u32); }
            (sum + 2) >> 2
        },
        (None, None) => 128,
    };
    let out = [dc as u8; 16];
    assert(out@ =~= pred_block(Intra4x4Mode::Dc, *n));
    Ok(out)
}

fn pred_diag_down_left(n: &Neighbors4x4) -> (res: Result<[u8; 16], DecodeError>)
    ensures
        !mode_available(Intra4x4Mode::DiagonalDownLeft, *n) ==> res == Err::<[u8; 16], DecodeError>(neighbor_missing()),
        mode_available(Intra4x4Mode::DiagonalDownLeft, *n) ==> (res matches Ok(o) && o@ == pred_block(Intra4x4Mode::DiagonalDownLeft, *n)),
{
    let t = match n.top { Some(t) => t, None => { return Err(err_neighbor_missing()); } };
    let tr = match n.top_right { Some(t) => t, None => { return Err(err_neighbor_missing()); } };
    let p: [u8; 8] = [t[0], t[1], t[2], t[3], tr[0], tr[1], tr[2], tr[3]];
    assert(forall|i: int| 0 <= i < 8 ==> p[i] as int == #[trigger] above8(*n, i));
    let mut a = [0u8; 7];
    for k in 0..6usize
        invariant
            n.top == Some(t),
            n.top_right == Some(tr),
            forall|i: int| 0 <= i < 8 ==> p[i] as int == #[trigger] above8(*n, i),
            forall|i: int| 0 <= i < k ==> a[i] as int == #[trigger] ddl_axis(*n, i),
    {
        a[k] = tap3(p[k], p[k + 1], p[k + 2]);
    }
    a[6] = tap13(p[6], p[7]);
    assert(forall|i: int| 0 <= i < 7 ==> a[i] as int == #[trigger] ddl_axis(*n, i));
    let mut out = [0u8; 16];
    for k in 0..16usize
        invariant
            forall|i: int| 0 <= i < 7 ==> a[i] as int == #[trigger] ddl_axis(*n, i),
            forall|j: int| 0 <= j < k ==> out[j] == #[trigger] pred_block(Intra4x4Mode::DiagonalDownLeft, *n)[j],
    {
        let x = k % 4;
        let y = k / 4;
        let v = a[x + y];
        at(&mut out, x, y, v);
    }
    assert(out@ =~= pred_block(Intra4x4Mode::DiagonalDownLeft, *n));
    Ok(out)
}

fn pred_diag_down_right(n: &Neighbors4x4) -> (res: Result<[u8; 16], DecodeError>)
    ensures
        !mode_available(Intra4x4Mode::DiagonalDownRight, *n) ==> res == Err::<[u8; 16], DecodeError>(neighbor_missing()),
        mode_available(Intra4x4Mode::DiagonalDownRight, *n) ==> (res matches Ok(o) && o@ == pred_block(Intra4x4Mode::DiagonalDownRight, *n)),
{
    let t = match n.top { Some(t) => t, None => { return Err(err_neighbor_missing()); } };
    let l = match n.left { Some(l) => l, None => { return Err(err_neighbor_missing()); } };
    let tl = match n.top_left { Some(v) => v, None => { return Err(err_neighbor_missing()); } };
    let p: [u8; 9] = [l[3], l[2], l[1], l[0], tl, t[0], t[1], t[2], t[3]];
    assert(forall|i: int| 0 <= i < 9 ==> p[i] as int == #[trigger] ddr_line(*n, i));
    let mut a = [0u8; 7];
    for k in 0..7usize
        invariant
            forall|i: int| 0 <= i < 9 ==> p[i] as int == #[trigger] ddr_line(*n, i),
            forall|i: int| 0 <= i < k ==> a[i] as int == tap3s(ddr_line(*n, i), ddr_line(*n, i + 1), ddr_line(*n, i + 2)),
    {
        a[k] = tap3(p[k], p[k + 1], p[k + 2]);
    }
    let mut out = [0u8; 16];
    for k in 0..16usize
        invariant
            forall|i: int| 0 <= i < 7 ==> a[i] as int == tap3s(ddr_line(*n, i), ddr_line(*n, i + 1), ddr_line(*n, i + 2)),
            forall|j: int| 0 <= j < k ==> out[j] == #[trigger] pred_block(Intra4x4Mode::DiagonalDownRight, *n)[j],
    {
        let x = k % 4;
        let y = k / 4;
        let idx = (3 + x as isize - y as isize) as usize;
        at(&mut out, x, y, a[idx]);
    }
    assert(out@ =~= pred_block(Intra4x4Mode::DiagonalDownRight, *n));
    Ok(out)
}

/// Sample `i` (-1..=3) of the row above, the corner at -1.
fn top_at(t: [u8; 4], tl: u8, i: isize) -> (r: u8)
    requires
        -1 <= i < 4,
    ensures
        r == if i == -1 { tl } else { t[i as int] },
{
    if i == -1 { tl } else { t[i as usize] }
}

/// Sample `j` (-1..=3) of the left column, the corner at -1.
fn left_at(l: [u8; 4], tl: u8, j: isize) -> (r: u8)
    requires
        -1 <= j < 4,
    ensures
        r == if j == -1 { tl } else { l[j as int] },
{
    if j == -1 { tl } else { l[j as usize] }
}

#[verifier::rlimit(30)]
fn pred_vertical_right(n: &Neighbors4x4) -> (res: Result<[u8; 16], DecodeError>)
    ensures
        !mode_available(Intra4x4Mode::VerticalRight, *n) ==> res == Err::<[u8; 16], DecodeError>(neighbor_missing()),
        mode_available(Intra4x4Mode::VerticalRight, *n) ==> (res matches Ok(o) && o@ == pred_block(Intra4x4Mode::VerticalRight, *n)),
{
    let t = match n.top { Some(t) => t, None => { return Err(err_neighbor_missing()); } };
    let l = match n.left { Some(l) => l, None => { return Err(err_neighbor_missing()); } };
    let tl = match n.top_left { Some(v) => v, None => { return Err(err_neighbor_missing()); } };
    let mut out = [0u8; 16];
    for k in 0..16usize
        invariant
            n.top == Some(t),
            n.left == Some(l),
            n.top_left == Some(tl),
            forall|j: int| 0 <= j < k ==> out[j] == #[trigger] pred_block(Intra4x4Mode::VerticalRight, *n)[j],
    {
        let x = k % 4;
        let y = k / 4;
        let zvr = 2 * x as isize - y as isize;
        let v = if zvr == 0 || zvr == 2 || zvr == 4 || zvr == 6 {
            proof { lemma_half_isize(y as isize); }
            let i = x as isize - (y as isize >> 1) - 1;
            tap2(top_at(t, tl, i), top_at(t, tl, i + 1))
        } else if zvr == 1 || zvr == 3 || zvr == 5 || zvr == 7 {
            proof { lemma_half_isize(y as isize); }
            let i = x as isize - (y as isize >> 1) - 1;
            tap3(top_at(t, tl, i - 1), top_at(t, tl, i), top_at(t, tl, i + 1))
        } else if zvr == -1 {
            tap3(left_at(l, tl, 0), tl, top_at(t, tl, 0))
        } else {
            tap3(left_at(l, tl, y as isize - 1), left_at(l, tl, y as isize - 2), left_at(l, tl, y as isize - 3))
        };
        at(&mut out, x, y, v);
    }
    assert(out@ =~= pred_block(Intra4x4Mode::VerticalRight, *n));
    Ok(out)
}

#[verifier::rlimit(30)]
fn pred_horizontal_down(n: &Neighbors4x4) -> (res: Result<[u8; 16], DecodeError>)
    ensures
        !mode_available(Intra4x4Mode::HorizontalDown, *n) ==> res == Err::<[u8; 16], DecodeError>(neighbor_missing()),
        mode_available(Intra4x4Mode::HorizontalDown, *n) ==> (res matches Ok(o) && o@ == pred_block(Intra4x4Mode::HorizontalDown, *n)),
{
    let t = match n.top { Some(t) => t, None => { return Err(err_neighbor_missing()); } };
    let l = match n.left { Some(l) => l, None => { return Err(err_neighbor_missing()); } };
    let tl = match n.top_left { Some(v) => v, None => { return Err(err_neighbor_missing()); } };
    let mut out = [0u8; 16];
    for k in 0..16usize
        invariant
            n.top == Some(t),
            n.left == Some(l),
            n.top_left == Some(tl),
            forall|j: int| 0 <= j < k ==> out[j] == #[trigger] pred_block(Intra4x4Mode::HorizontalDown, *n)[j],
    {
        let x = k % 4;
        let y = k / 4;
        let zhd = 2 * y as isize - x as isize;
        let v = if zhd == 0 || zhd == 2 || zhd == 4 || zhd == 6 {
            proof { lemma_half_isize(x as isize); }
            let j = y as isize - (x as isize >> 1) - 1;
            tap2(left_at(l, tl, j), left_at(l, tl, j + 1))
        } else if zhd == 1 || zhd == 3 || zhd == 5 || zhd == 7 {
            proof { lemma_half_isize(x as isize); }
            let j = y as isize - (x as isize >> 1) - 1;
            tap3(left_at(l, tl, j - 1), left_at(l, tl, j), left_at(l, tl, j + 1))
        } else if zhd == -1 {
            tap3(left_at(l, tl, 0), tl, top_at(t, tl, 0))
        } else {
            tap3(top_at(t, tl, x as isize - 1), top_at(t, tl, x as isize - 2), top_at(t, tl, x as isize - 3))
        };
        at(&mut out, x, y, v);
    }
    assert(out@ =~= pred_block(Intra4x4Mode::HorizontalDown, *n));
    Ok(out)
}

fn pred_vertical_left(n: &Neighbors4x4) -> (res: Result<[u8; 16], DecodeError>)
    ensures
        !mode_available(Intra4x4Mode::VerticalLeft, *n) ==> res == Err::<[u8; 16], DecodeError>(neighbor_missing()),
        mode_available(Intra4x4Mode::VerticalLeft, *n) ==> (res matches Ok(o) && o@ == pred_block(Intra4x4Mode::VerticalLeft, *n)),
{
    let t = match n.top { Some(t) => t, None => { return Err(err_neighbor_missing()); } };
    let tr = match n.top_right { Some(t) => t, None => { return Err(err_neighbor_missing()); } };
    let p: [u8; 8] = [t[0], t[1], t[2], t[3], tr[0], tr[1], tr[2], tr[3]];
    assert(forall|i: int| 0 <= i < 8 ==> p[i] as int == #[trigger] above8(*n, i));
    let mut out = [0u8; 16];
    for k in 0..16usize
        invariant
            forall|i: int| 0 <= i < 8 ==> p[i] as int == #[trigger] above8(*n, i),
            forall|j: int| 0 <= j < k ==> out[j] == #[trigger] pred_block(Intra4x4Mode::VerticalLeft, *n)[j],
    {
        let x = k % 4;
        let y = k / 4;
        let v = if y % 2 == 0 {
            let i = x + y / 2;
            tap2(p[i], p[i + 1])
        } else {
            let i = x + y / 2;
            tap3(p[i], p[i + 1], p[i + 2])
        };
        at(&mut out, x, y, v);
    }
    assert(out@ =~= pred_block(Intra4x4Mode::VerticalLeft, *n));
    Ok(out)
}

fn pred_horizontal_up(n: &Neighbors4x4) -> (res: Result<[u8; 16], DecodeError>)
    ensures
        !mode_available(Intra4x4Mode::HorizontalUp, *n) ==> res == Err::<[u8; 16], DecodeError>(neighbor_missing()),
        mode_available(Intra4x4Mode::HorizontalUp, *n) ==> (res matches Ok(o) && o@ == pred_block(Intra4x4Mode::HorizontalUp, *n)),
{
    let l = match n.left { Some(l) => l, None => { return Err(err_neighbor_missing()); } };
    let mut out = [0u8; 16];
    for k in 0..16usize
        invariant
            n.left == Some(l),
            forall|j: int| 0 <= j < k ==> out[j] == #[trigger] pred_block(Intra4x4Mode::HorizontalUp, *n)[j],
    {
        let x = k % 4;
        let y = k / 4;
        let zhu = x + 2 * y;
        let v: u8 = if zhu == 0 || zhu == 2 || zhu == 4 {
            let j = y + x / 2;
            tap2(l[j], l[j + 1])
        } else if zhu == 1 || zhu == 3 {
            let j = y + x / 2;
            tap3(l[j], l[j + 1], l[j + 2])
        } else if zhu == 5 || zhu == 6 {
            tap13(l[2], l[3])
        } else {
            l[3]
        };
        at(&mut out, x, y, v);
    }
    assert(out@ =~= pred_block(Intra4x4Mode::HorizontalUp, *n));
    Ok(out)
}

/// The predicted 4×4 block (raster order) for `mode`; fails with the
/// neighbor-missing error when the mode needs a neighbor that is absent.
pub fn predict_4x4(mode: Intra4x4Mode, n: &Neighbors4x4) -> (res: Result<[u8; 16], DecodeError>)
    ensures
        !mode_available(mode, *n) ==> res == Err::<[u8; 16], DecodeError>(neighbor_missing()),
        mode_available(mode, *n) ==> (res matches Ok(o) && o@ == pred_block(mode, *n)),
{
    match mode {
        Intra4x4Mode::Vertical => pred_vertical(n),
        Intra4x4Mode::Horizontal => pred_horizontal(n),
        Intra4x4Mode::Dc => pred_dc(n),
        Intra4x4Mode::DiagonalDownLeft => pred_diag_down_left(n),
        Intra4x4Mode::DiagonalDownRight => pred_diag_down_right(n),
        Intra4x4Mode::VerticalRight => pred_vertical_right(n),
        Intra4x4Mode::HorizontalDown => pred_horizontal_down(n),
        Intra4x4Mode::VerticalLeft => pred_vertical_left(n),
        Intra4x4Mode::HorizontalUp => pred_horizontal_up(n),
    }
}

// ─────────────────────────────────────────────────────────────────────
// Laws
// ─────────────────────────────────────────────────────────────────────

/// With every neighbor equal to `c`, every mode predicts the constant block `c`.
pub proof fn lemma_constant_neighbors_predict_constant(mode: Intra4x4Mode, c: u8)
    ensures
        pred_block(mode, Neighbors4x4 { top: Some([c, c, c, c]), top_right: Some([c, c, c, c]), left: Some([c, c, c, c]), top_left: Some(c) })
            == Seq::new(16, |k: int| c),
{
    let n = Neighbors4x4 { top: Some([c, c, c, c]), top_right: Some([c, c, c, c]), left: Some([c, c, c, c]), top_left: Some(c) };
    let ci = c as int;
    assert(tap3s(ci, ci, ci) == ci);
    assert(tap2s(ci, ci) == ci);
    assert(tap13s(ci, ci) == ci);
    assert(dc_value(n) == ci);
    assert forall|i: int| 0 <= i < 8 implies #[trigger] above8(n, i) == ci by {}
    assert forall|i: int| 0 <= i < 9 implies #[trigger] ddr_line(n, i) == ci by {}
    assert forall|i: int| -1 <= i < 4 implies #[trigger] top_s(n, i) == ci && #[trigger] left_s(n, i) == ci by {}
    assert forall|i: int| 0 <= i < 7 implies #[trigger] ddl_axis(n, i) == ci by {}
    assert forall|k: int| 0 <= k < 16 implies #[trigger] pred_block(mode, n)[k] == c by {
        let x = k % 4;
        let y = k / 4;
        assert(pred_pixel(mode, n, x, y) == ci);
    }
    assert(pred_block(mode, n) =~= Seq::new(16, |k: int| c));
}

/// Diagonal_Down_Right (§8.3.1.2.5), over the neighbour samples: a
/// sample right of the main diagonal is the 3-tap filter of the row above
/// (the corner standing left of `top[0]`), one left of it the 3-tap
/// filter of the left column (the corner above `left[0]`), and one on it
/// the filter of `left[0]`, the corner and `top[0]`.
pub proof fn lemma_diag_down_right_filters(n: Neighbors4x4)
    requires
        n.top is Some,
        n.left is Some,
        n.top_left is Some,
    ensures
        ({
            let t = n.top->0;
            let l = n.left->0;
            let c = n.top_left->0 as int;
            let b = pred_block(Intra4x4Mode::DiagonalDownRight, n);
            &&& forall|k: int|
                0 <= k < 16 && k % 4 > k / 4 ==> #[trigger] b[k] as int == ((if k % 4 - k / 4 == 1 { c } else {
                    t[k % 4 - k / 4 - 2] as int
                }) + 2 * (t[k % 4 - k / 4 - 1] as int) + t[k % 4 - k / 4] as int + 2) / 4
            &&& forall|k: int|
                0 <= k < 16 && k % 4 < k / 4 ==> #[trigger] b[k] as int == ((if k / 4 - k % 4 == 1 { c } else {
                    l[k / 4 - k % 4 - 2] as int
                }) + 2 * (l[k / 4 - k % 4 - 1] as int) + l[k / 4 - k % 4] as int + 2) / 4
            &&& forall|k: int| 0 <= k < 16 && k % 4 == k / 4 ==> #[trigger] b[k] as int == (t[0] as int + 2 * c + l[0] as int + 2) / 4
        }),
{
    let t = n.top->0;
    let l = n.left->0;
    let c = n.top_left->0 as int;
    let b = pred_block(Intra4x4Mode::DiagonalDownRight, n);
    assert forall|k: int| 0 <= k < 16 implies #[trigger] b[k] as int == pred_pixel(Intra4x4Mode::DiagonalDownRight, n, k % 4, k / 4) by {
        let x = k % 4;
        let y = k / 4;
        let i = 3 + x - y;
        assert(0 <= ddr_line(n, i) < 256 && 0 <= ddr_line(n, i + 1) < 256 && 0 <= ddr_line(n, i + 2) < 256);
    }
}

/// The neighbours seen from the other side of the main diagonal: the row
/// above and the left column trade places.
pub open spec fn mirrored(n: Neighbors4x4) -> Neighbors4x4 {
    Neighbors4x4 { top_left: n.top_left, top: n.left, top_right: n.top_right, left: n.top }
}

/// Horizontal_Down is Vertical_Right mirrored in the main diagonal: the
/// sample at (x, y) is the Vertical_Right sample at (y, x) when the row
/// above and the left column trade places (§8.3.1.2.6, §8.3.1.2.7).
pub proof fn lemma_horizontal_down_mirrors_vertical_right(n: Neighbors4x4)
    requires
        n.top is Some,
        n.left is Some,
        n.top_left is Some,
    ensures
        forall|x: int, y: int|
            0 <= x < 4 && 0 <= y < 4 ==> #[trigger] pred_pixel(Intra4x4Mode::HorizontalDown, n, x, y) == pred_pixel(
                Intra4x4Mode::VerticalRight,
                mirrored(n),
                y,
                x,
            ),
        forall|k: int|
            0 <= k < 16 ==> #[trigger] pred_block(Intra4x4Mode::HorizontalDown, n)[k] == pred_block(
                Intra4x4Mode::VerticalRight,
                mirrored(n),
            )[4 * (k % 4) + k / 4],
{
    let m = mirrored(n);
    assert forall|x: int, y: int| 0 <= x < 4 && 0 <= y < 4 implies #[trigger] pred_pixel(Intra4x4Mode::HorizontalDown, n, x, y)
        == pred_pixel(Intra4x4Mode::VerticalRight, m, y, x) by {
        assert forall|i: int| -1 <= i < 4 implies #[trigger] top_s(m, i) == left_s(n, i) && #[trigger] left_s(m, i) == top_s(n, i) by {}
    }
    assert forall|k: int| 0 <= k < 16 implies #[trigger] pred_block(Intra4x4Mode::HorizontalDown, n)[k] == pred_block(
        Intra4x4Mode::VerticalRight, m)[4 * (k % 4) + k / 4] by {
        let j = 4 * (k % 4) + k / 4;
        assert(j % 4 == k / 4 && j / 4 == k % 4);
        assert(pred_pixel(Intra4x4Mode::HorizontalDown, n, k % 4, k / 4) == pred_pixel(Intra4x4Mode::VerticalRight, m, k / 4, k % 4));
    }
}

/// Diagonal_Down_Right is its own mirror image: the sample at (x, y) is
/// the sample at (y, x) when the row above and the left column trade
/// places.
pub proof fn lemma_diag_down_right_mirror(n: Neighbors4x4)
    requires
        n.top is Some,
        n.left is Some,
        n.top_left is Some,
    ensures
        forall|k: int|
            0 <= k < 16 ==> #[trigger] pred_block(Intra4x4Mode::DiagonalDownRight, n)[k] == pred_block(
                Intra4x4Mode::DiagonalDownRight,
                mirrored(n),
            )[4 * (k % 4) + k / 4],
{
    let m = mirrored(n);
    assert forall|k: int| 0 <= k < 16 implies #[trigger] pred_block(Intra4x4Mode::DiagonalDownRight, n)[k] == pred_block(
        Intra4x4Mode::DiagonalDownRight, m)[4 * (k % 4) + k / 4] by {
        let j = 4 * (k % 4) + k / 4;
        assert(j % 4 == k / 4 && j / 4 == k % 4);
        let x = k % 4;
        let y = k / 4;
        let a = 3 + x - y;
        assert(ddr_line(n, a) == ddr_line(m, 8 - a));
        assert(ddr_line(n, a + 1) == ddr_line(m, 7 - a));
        assert(ddr_line(n, a + 2) == ddr_line(m, 6 - a));
    }
}

/// Horizontal is Vertical mirrored in the main diagonal.
pub proof fn lemma_horizontal_mirrors_vertical(n: Neighbors4x4)
    requires
        n.left is Some,
    ensures
        forall|k: int|
            0 <= k < 16 ==> #[trigger] pred_block(Intra4x4Mode::Horizontal, n)[k] == pred_block(
                Intra4x4Mode::Vertical,
                mirrored(n),
            )[4 * (k % 4) + k / 4],
{
    let m = mirrored(n);
    assert forall|k: int| 0 <= k < 16 implies #[trigger] pred_block(Intra4x4Mode::Horizontal, n)[k] == pred_block(
        Intra4x4Mode::Vertical, m)[4 * (k % 4) + k / 4] by {
        let j = 4 * (k % 4) + k / 4;
        assert(j % 4 == k / 4 && j / 4 == k % 4);
    }
}

} // verus!
