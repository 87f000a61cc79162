//! `RIRBWP` register bits.
use vstd::prelude::*;

verus! {

pub const RESET: u16 = 0x8000;

} // verus!
