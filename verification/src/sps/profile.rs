//! profile_idc values (§A.2).

use vstd::prelude::*;

verus! {

pub const BASELINE: u8 = 66;
pub const MAIN: u8 = 77;
pub const EXTENDED: u8 = 88;
pub const HIGH: u8 = 100;

} // verus!
