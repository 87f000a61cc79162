//! Controller register offsets and bit fields (Intel HDA spec rev 1.0a,
//! section 3.3).
pub mod corbctl;
pub mod corbrp;
pub mod gctl;
pub mod rirbctl;
pub mod rirbsts;
pub mod rirbwp;
pub mod sd;
pub mod sdctl;

use vstd::prelude::*;

verus! {

pub const GCAP: u32 = 0x00;
pub const VMIN: u32 = 0x02;
pub const VMAJ: u32 = 0x03;
pub const GCTL: u32 = 0x08;
pub const WAKEEN: u32 = 0x0C;
pub const STATESTS: u32 = 0x0E;
pub const GSTS: u32 = 0x10;
pub const INTCTL: u32 = 0x20;
pub const INTSTS: u32 = 0x24;
pub const WALCLK: u32 = 0x30;
pub const SSYNC: u32 = 0x38;
pub const CORBLBASE: u32 = 0x40;
pub const CORBUBASE: u32 = 0x44;
pub const CORBWP: u32 = 0x48;
pub const CORBRP: u32 = 0x4A;
pub const CORBCTL: u32 = 0x4C;
pub const CORBSTS: u32 = 0x4D;
pub const CORBSIZE: u32 = 0x4E;
pub const RIRBLBASE: u32 = 0x50;
pub const RIRBUBASE: u32 = 0x54;
pub const RIRBWP: u32 = 0x58;
pub const RINTCNT: u32 = 0x5A;
pub const RIRBCTL: u32 = 0x5C;
pub const RIRBSTS: u32 = 0x5D;
pub const RIRBSIZE: u32 = 0x5E;
pub const DPIBLBASE: u32 = 0x70;
pub const DPIBUBASE: u32 = 0x74;

/// Stream descriptor blocks start at this offset and are this many bytes
/// apart.
pub open spec fn spec_stream_desc_base(n: int) -> int {
    0x80 + n * 0x20
}

/// Byte offset of stream descriptor `n`'s register block. Output streams are
/// numbered after all input streams, so callers add the input-stream count
/// reported by GCAP.
pub fn stream_desc_base(n: u32) -> (r: u32)
    requires
        spec_stream_desc_base(n as int) <= u32::MAX,
    ensures
        r == spec_stream_desc_base(n as int),
{
    0x80 + n * 0x20
}

/// `GCAP` (Global Capabilities) fields.
pub struct Gcap {
    pub output_streams: u8,
    pub input_streams: u8,
    pub bidirectional_streams: u8,
    pub serial_data_out_lines: u8,
    pub supports_64bit: bool,
}

impl Gcap {
    /// The fields of a raw GCAP value: OSS in bits 15:12, ISS in 11:8, BSS
    /// in 7:3, NSDO in 2:1, and 64OK in bit 0.
    pub open spec fn spec_decode(raw: u16) -> Gcap {
        Gcap {
            output_streams: ((raw >> 12u16) & 0xF) as u8,
            input_streams: ((raw >> 8u16) & 0xF) as u8,
            bidirectional_streams: ((raw >> 3u16) & 0x1F) as u8,
            serial_data_out_lines: ((raw >> 1u16) & 0x3) as u8,
            supports_64bit: raw & 1 != 0,
        }
    }

    pub fn decode(raw: u16) -> (r: Self)
        ensures
            r == Self::spec_decode(raw),
            r.output_streams < 16,
            r.input_streams < 16,
            r.bidirectional_streams < 32,
            r.serial_data_out_lines < 4,
    {
        proof {
            assert(((raw >> 12u16) & 0xF) < 16) by (bit_vector);
            assert(((raw >> 8u16) & 0xF) < 16) by (bit_vector);
            assert(((raw >> 3u16) & 0x1F) < 32) by (bit_vector);
            assert(((raw >> 1u16) & 0x3) < 4) by (bit_vector);
        }
        Self {
            output_streams: ((raw >> 12) & 0xF) as u8,
            input_streams: ((raw >> 8) & 0xF) as u8,
            bidirectional_streams: ((raw >> 3) & 0x1F) as u8,
            serial_data_out_lines: ((raw >> 1) & 0x3) as u8,
            supports_64bit: raw & 1 != 0,
        }
    }

    /// Decoding loses nothing: the five fields, put back at their bit
    /// positions (OSS at 12, ISS at 8, BSS at 3, NSDO at 1, 64OK at 0),
    /// give the raw register value again; and output stream descriptors
    /// follow the input streams' in 0x20-byte blocks from offset 0x80.
    pub proof fn lemma_decode_round_trip(raw: u16, n: u8)
        ensures
            ({
                let g = Self::spec_decode(raw);
                ((g.output_streams as u16) << 12u16) | ((g.input_streams as u16) << 8u16) | ((
                g.bidirectional_streams as u16) << 3u16) | ((g.serial_data_out_lines as u16) << 1u16) | (
                if g.supports_64bit {
                    1u16
                } else {
                    0u16
                }) == raw
            }),
            Self::spec_decode(raw).spec_output_stream_base(n) == 0x80 + 0x20 * (((raw >> 8u16) & 0xF) + n),
    {
        let g = Self::spec_decode(raw);
        let b: u16 = if raw & 1 != 0 { 1 } else { 0 };
        assert(b == raw & 1) by (bit_vector)
            requires
                b == (if raw & 1 != 0 { 1u16 } else { 0u16 }),
        ;
        assert((((((raw >> 12u16) & 0xF) as u8) as u16) << 12u16) | (((((raw >> 8u16) & 0xF) as u8) as u16)
            << 8u16) | (((((raw >> 3u16) & 0x1F) as u8) as u16) << 3u16) | (((((raw >> 1u16) & 0x3) as u8)
            as u16) << 1u16) | (raw & 1) == raw && ((raw >> 8u16) & 0xF) < 16) by (bit_vector);
        assert(g.input_streams == (raw >> 8u16) & 0xF);
    }

    /// Byte offset of output stream `n`'s descriptor block (0-based).
    pub open spec fn spec_output_stream_base(&self, n: u8) -> int {
        spec_stream_desc_base(self.input_streams + n)
    }

    /// Byte offset of output stream `n`'s descriptor block (0-based).
    pub fn output_stream_base(&self, n: u8) -> (r: u32)
        ensures
            r == self.spec_output_stream_base(n),
    {
        stream_desc_base(self.input_streams as u32 + n as u32)
    }
}

} // verus!
