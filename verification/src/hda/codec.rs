//! Decoded shapes of the codec parameter responses relevant to routing audio
//! to an output pin.
use vstd::prelude::*;

use crate::hda::verbs::WidgetType;

verus! {

/// Bit `n` of `raw` is set.
pub open spec fn bit(raw: u32, n: u32) -> bool {
    (raw >> n) & 1 == 1
}

proof fn lemma_bits(raw: u32)
    ensures
        bit(raw, 0) == (raw & 0x1 != 0),
        bit(raw, 1) == (raw & 0x2 != 0),
        bit(raw, 2) == (raw & 0x4 != 0),
        bit(raw, 3) == (raw & 0x8 != 0),
        bit(raw, 4) == (raw & 0x10 != 0),
        bit(raw, 5) == (raw & 0x20 != 0),
        bit(raw, 7) == (raw & 0x80 != 0),
        bit(raw, 8) == (raw & 0x100 != 0),
        bit(raw, 9) == (raw & 0x200 != 0),
        bit(raw, 10) == (raw & 0x400 != 0),
        bit(raw, 16) == (raw & 0x10000 != 0),
        bit(raw, 31) == (raw & 0x8000_0000 != 0),
{
    assert(((raw >> 0u32) & 1 == 1) == (raw & 0x1 != 0)) by (bit_vector);
    assert(((raw >> 1u32) & 1 == 1) == (raw & 0x2 != 0)) by (bit_vector);
    assert(((raw >> 2u32) & 1 == 1) == (raw & 0x4 != 0)) by (bit_vector);
    assert(((raw >> 3u32) & 1 == 1) == (raw & 0x8 != 0)) by (bit_vector);
    assert(((raw >> 4u32) & 1 == 1) == (raw & 0x10 != 0)) by (bit_vector);
    assert(((raw >> 5u32) & 1 == 1) == (raw & 0x20 != 0)) by (bit_vector);
    assert(((raw >> 7u32) & 1 == 1) == (raw & 0x80 != 0)) by (bit_vector);
    assert(((raw >> 8u32) & 1 == 1) == (raw & 0x100 != 0)) by (bit_vector);
    assert(((raw >> 9u32) & 1 == 1) == (raw & 0x200 != 0)) by (bit_vector);
    assert(((raw >> 10u32) & 1 == 1) == (raw & 0x400 != 0)) by (bit_vector);
    assert(((raw >> 16u32) & 1 == 1) == (raw & 0x10000 != 0)) by (bit_vector);
    assert(((raw >> 31u32) & 1 == 1) == (raw & 0x8000_0000 != 0)) by (bit_vector);
}

/// Audio Widget Capabilities: the widget type in bits 23:20 and the flags
/// below it.
#[derive(Debug, Clone, Copy)]
pub struct WidgetCaps {
    pub wtype: WidgetType,
    pub stereo: bool,
    pub in_amp_present: bool,
    pub out_amp_present: bool,
    pub amp_param_override: bool,
    pub format_override: bool,
    pub conn_list: bool,
    pub power_cntrl: bool,
    pub digital: bool,
    pub unsol_capable: bool,
}

impl WidgetCaps {
    pub open spec fn spec_decode(raw: u32) -> WidgetCaps {
        WidgetCaps {
            wtype: WidgetType::spec_decode(((raw >> 20u32) & 0xF) as u8),
            stereo: bit(raw, 0),
            in_amp_present: bit(raw, 1),
            out_amp_present: bit(raw, 2),
            amp_param_override: bit(raw, 3),
            format_override: bit(raw, 4),
            conn_list: bit(raw, 8),
            power_cntrl: bit(raw, 10),
            digital: bit(raw, 9),
            unsol_capable: bit(raw, 7),
        }
    }

    pub fn decode(raw: u32) -> (r: Self)
        ensures
            r == Self::spec_decode(raw),
    {
        proof {
            lemma_bits(raw);
        }
        Self {
            wtype: WidgetType::decode(((raw >> 20) & 0xF) as u8),
            stereo: raw & 0x1 != 0,
            in_amp_present: raw & 0x2 != 0,
            out_amp_present: raw & 0x4 != 0,
            amp_param_override: raw & 0x8 != 0,
            format_override: raw & 0x10 != 0,
            conn_list: raw & 0x100 != 0,
            power_cntrl: raw & 0x400 != 0,
            digital: raw & 0x200 != 0,
            unsol_capable: raw & 0x80 != 0,
        }
    }
}

/// Pin Capabilities.
#[derive(Debug, Clone, Copy)]
pub struct PinCaps {
    pub input_capable: bool,
    pub output_capable: bool,
    pub headphone_drive_capable: bool,
    pub presence_detect_capable: bool,
    pub eapd_capable: bool,
    pub hdmi: bool,
}

impl PinCaps {
    pub open spec fn spec_decode(raw: u32) -> PinCaps {
        PinCaps {
            input_capable: bit(raw, 5),
            output_capable: bit(raw, 4),
            headphone_drive_capable: bit(raw, 3),
            presence_detect_capable: bit(raw, 2),
            eapd_capable: bit(raw, 16),
            hdmi: bit(raw, 7),
        }
    }

    pub fn decode(raw: u32) -> (r: Self)
        ensures
            r == Self::spec_decode(raw),
    {
        proof {
            lemma_bits(raw);
        }
        Self {
            input_capable: raw & 0x20 != 0,
            output_capable: raw & 0x10 != 0,
            headphone_drive_capable: raw & 0x8 != 0,
            presence_detect_capable: raw & 0x4 != 0,
            eapd_capable: raw & 0x10000 != 0,
            hdmi: raw & 0x80 != 0,
        }
    }
}

/// Amplifier Capabilities: mute capability in bit 31, the number of gain
/// steps in bits 14:8, and the step that is 0 dB in bits 6:0.
#[derive(Debug, Clone, Copy)]
pub struct AmpCaps {
    pub mute_capable: bool,
    pub num_steps: u8,
    pub offset: u8,
}

impl AmpCaps {
    pub open spec fn spec_decode(raw: u32) -> AmpCaps {
        AmpCaps {
            mute_capable: bit(raw, 31),
            num_steps: ((raw >> 8u32) & 0x7F) as u8,
            offset: (raw & 0x7F) as u8,
        }
    }

    pub fn decode(raw: u32) -> (r: Self)
        ensures
            r == Self::spec_decode(raw),
            r.num_steps < 128,
            r.offset < 128,
    {
        proof {
            assert((raw >> 8u32) & 0x7F < 128) by (bit_vector);
            assert(raw & 0x7F < 128) by (bit_vector);
            lemma_bits(raw);
        }
        Self {
            mute_capable: raw & 0x8000_0000 != 0,
            num_steps: ((raw >> 8) & 0x7F) as u8,
            offset: (raw & 0x7F) as u8,
        }
    }
}

#[derive(Debug, Clone, Copy)]
pub struct Codec {
    pub addr: u8,
    pub vendor_id: u16,
    pub device_id: u16,
}

#[derive(Debug, Clone, Copy)]
pub struct Widget {
    pub nid: u8,
    pub caps: WidgetCaps,
}

} // verus!
