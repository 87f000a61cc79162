//! `RIRBSTS` register bits.
use vstd::prelude::*;

verus! {

pub const RINTFL: u8 = 0x1;
pub const RIRBOIS: u8 = 0x4;

} // verus!
