//! Bits within the 32-bit `SDnCTL`/`SDnSTS` combined register.
use vstd::prelude::*;

verus! {

pub const SRST: u32 = 0x1;
pub const RUN: u32 = 0x2;
pub const IOCE: u32 = 0x4;
pub const FEIE: u32 = 0x8;
pub const DEIE: u32 = 0x10;
pub const STRM_SHIFT: u32 = 20;
pub const STRM_MASK: u32 = 0xF0_0000;

/// The stream-number field of `SDnCTL` holding `tag` (only its low four bits
/// fit), with every other bit clear.
pub open spec fn spec_with_stream_tag(tag: u8) -> u32 {
    ((tag as u32) & 0xF) << 20u32
}

pub fn with_stream_tag(tag: u8) -> (r: u32)
    ensures
        r == spec_with_stream_tag(tag),
        r & !STRM_MASK == 0,
        (r & STRM_MASK) >> 20u32 == (tag & 0xF) as u32,
{
    let r = ((tag as u32) & 0xF) << STRM_SHIFT;
    proof {
        let t = tag as u32;
        assert(((t & 0xF) << 20u32) & !0xF0_0000u32 == 0) by (bit_vector);
        assert(t < 256 ==> (((t & 0xF) << 20u32) & 0xF0_0000u32) >> 20u32 == (t & 0xF)) by (bit_vector);
        assert((tag & 0xF) as u32 == (tag as u32) & 0xF) by (bit_vector);
    }
    r
}

/// The control value `ctl` with RUN set and every other bit kept.
pub fn run_set(ctl: u32) -> (r: u32)
    ensures
        r == ctl | RUN,
        r & RUN != 0,
        r & !RUN == ctl & !RUN,
{
    let r = ctl | RUN;
    assert(r & 2 != 0 && r & !2u32 == ctl & !2u32) by (bit_vector)
        requires
            r == ctl | 2,
    ;
    r
}

/// The control value `ctl` with RUN clear and every other bit kept.
pub fn run_cleared(ctl: u32) -> (r: u32)
    ensures
        r == ctl & !RUN,
        r & RUN == 0,
        r & !RUN == ctl & !RUN,
{
    let r = ctl & !RUN;
    assert(r & 2 == 0 && r & !2u32 == ctl & !2u32) by (bit_vector)
        requires
            r == ctl & !2u32,
    ;
    r
}

/// On a control register that reads back what was last written to it,
/// starting a stream (writing `ctl | RUN`) and then stopping it (writing
/// that value with RUN clear) restores a value whose RUN bit was clear;
/// stopping then starting leaves RUN set; and each of the two, done again,
/// writes the same value.
pub proof fn lemma_run_round_trip(ctl: u32)
    ensures
        ctl & RUN == 0 ==> (ctl | RUN) & !RUN == ctl,
        (ctl & !RUN) | RUN == ctl | RUN,
        (ctl | RUN) | RUN == ctl | RUN,
        (ctl & !RUN) & !RUN == ctl & !RUN,
{
    assert((ctl & 2 == 0 ==> (ctl | 2) & !2u32 == ctl) && (ctl & !2u32) | 2 == ctl | 2 && (ctl | 2) | 2 == ctl | 2
        && (ctl & !2u32) & !2u32 == ctl & !2u32) by (bit_vector);
}

} // verus!
