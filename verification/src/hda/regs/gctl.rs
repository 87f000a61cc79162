//! `GCTL` register bits.
use vstd::prelude::*;

verus! {

pub const CRST: u32 = 0x1;
pub const FCNTRL: u32 = 0x2;
pub const UNSOL: u32 = 0x100;

} // verus!
