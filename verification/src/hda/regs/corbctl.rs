//! `CORBCTL` register bits.
use vstd::prelude::*;

verus! {

pub const CMEIE: u8 = 0x1;
pub const CORBRUN: u8 = 0x2;

} // verus!
