//! Offsets *within* one 0x20-byte stream descriptor block.
use vstd::prelude::*;

verus! {

pub const CTL_STS: u32 = 0x00;
pub const LPIB: u32 = 0x04;
pub const CBL: u32 = 0x08;
pub const LVI: u32 = 0x0C;
pub const FIFOS: u32 = 0x10;
pub const FMT: u32 = 0x12;
pub const BDPL: u32 = 0x18;
pub const BDPU: u32 = 0x1C;

} // verus!
