//! `RIRBCTL` register bits.
use vstd::prelude::*;

verus! {

pub const RINTCTL: u8 = 0x1;
pub const RIRBDMAEN: u8 = 0x2;
pub const RIRBOIC: u8 = 0x4;

} // verus!
