//! Codec verb IDs and CORB command encoding.
//!
//! A CORB entry is `(codec_addr << 28) | (nid << 20) | payload20`, where
//! `payload20` packs a verb and its argument one of two ways:
//!
//! - most verbs: 12-bit verb in bits 19:8, 8-bit payload in bits 7:0
//! - format/amp verbs: 4-bit verb in bits 19:16, 16-bit payload in bits 15:0
//!
//! Both reduce to `(verb << shift) | payload`, so [`Verb8`] and [`Verb16`]
//! carry the pre-shifted verb constant for each family.
pub mod param_id;

use vstd::prelude::*;

verus! {

/// A verb taking an 8-bit payload (`(verb << 8) | payload`).
pub struct Verb8(pub u32);

/// A verb taking a 16-bit payload (`(verb << 16) | payload`).
pub struct Verb16(pub u32);

impl Verb8 {
    pub fn payload(&self, arg: u8) -> (r: u32)
        ensures
            r == self.0 | arg as u32,
    {
        self.0 | arg as u32
    }
}

impl Verb16 {
    pub fn payload(&self, arg: u16) -> (r: u32)
        ensures
            r == self.0 | arg as u32,
    {
        self.0 | arg as u32
    }
}

#[allow(non_snake_case)]
pub open spec fn spec_get_parameter() -> Verb8 {
    Verb8(0xF0000)
}

#[allow(non_snake_case)]
#[verifier::when_used_as_spec(spec_get_parameter)]
pub fn GET_PARAMETER() -> (r: Verb8)
    ensures
        r == Verb8(0xF0000),
{
    Verb8(0xF0000)
}
#[allow(non_snake_case)]
pub open spec fn spec_get_connection_select() -> Verb8 {
    Verb8(0xF0100)
}

#[allow(non_snake_case)]
#[verifier::when_used_as_spec(spec_get_connection_select)]
pub fn GET_CONNECTION_SELECT() -> (r: Verb8)
    ensures
        r == Verb8(0xF0100),
{
    Verb8(0xF0100)
}
#[allow(non_snake_case)]
pub open spec fn spec_set_connection_select() -> Verb8 {
    Verb8(0x70100)
}

#[allow(non_snake_case)]
#[verifier::when_used_as_spec(spec_set_connection_select)]
pub fn SET_CONNECTION_SELECT() -> (r: Verb8)
    ensures
        r == Verb8(0x70100),
{
    Verb8(0x70100)
}
#[allow(non_snake_case)]
pub open spec fn spec_get_connection_list_entry() -> Verb8 {
    Verb8(0xF0200)
}

#[allow(non_snake_case)]
#[verifier::when_used_as_spec(spec_get_connection_list_entry)]
pub fn GET_CONNECTION_LIST_ENTRY() -> (r: Verb8)
    ensures
        r == Verb8(0xF0200),
{
    Verb8(0xF0200)
}
#[allow(non_snake_case)]
pub open spec fn spec_get_power_state() -> Verb8 {
    Verb8(0xF0500)
}

#[allow(non_snake_case)]
#[verifier::when_used_as_spec(spec_get_power_state)]
pub fn GET_POWER_STATE() -> (r: Verb8)
    ensures
        r == Verb8(0xF0500),
{
    Verb8(0xF0500)
}
#[allow(non_snake_case)]
pub open spec fn spec_set_power_state() -> Verb8 {
    Verb8(0x70500)
}

#[allow(non_snake_case)]
#[verifier::when_used_as_spec(spec_set_power_state)]
pub fn SET_POWER_STATE() -> (r: Verb8)
    ensures
        r == Verb8(0x70500),
{
    Verb8(0x70500)
}
#[allow(non_snake_case)]
pub open spec fn spec_get_converter_stream_channel() -> Verb8 {
    Verb8(0xF0600)
}

#[allow(non_snake_case)]
#[verifier::when_used_as_spec(spec_get_converter_stream_channel)]
pub fn GET_CONVERTER_STREAM_CHANNEL() -> (r: Verb8)
    ensures
        r == Verb8(0xF0600),
{
    Verb8(0xF0600)
}
#[allow(non_snake_case)]
pub open spec fn spec_set_converter_stream_channel() -> Verb8 {
    Verb8(0x70600)
}

#[allow(non_snake_case)]
#[verifier::when_used_as_spec(spec_set_converter_stream_channel)]
pub fn SET_CONVERTER_STREAM_CHANNEL() -> (r: Verb8)
    ensures
        r == Verb8(0x70600),
{
    Verb8(0x70600)
}
#[allow(non_snake_case)]
pub open spec fn spec_get_pin_widget_control() -> Verb8 {
    Verb8(0xF0700)
}

#[allow(non_snake_case)]
#[verifier::when_used_as_spec(spec_get_pin_widget_control)]
pub fn GET_PIN_WIDGET_CONTROL() -> (r: Verb8)
    ensures
        r == Verb8(0xF0700),
{
    Verb8(0xF0700)
}
#[allow(non_snake_case)]
pub open spec fn spec_set_pin_widget_control() -> Verb8 {
    Verb8(0x70700)
}

#[allow(non_snake_case)]
#[verifier::when_used_as_spec(spec_set_pin_widget_control)]
pub fn SET_PIN_WIDGET_CONTROL() -> (r: Verb8)
    ensures
        r == Verb8(0x70700),
{
    Verb8(0x70700)
}
#[allow(non_snake_case)]
pub open spec fn spec_get_unsolicited_response() -> Verb8 {
    Verb8(0xF0800)
}

#[allow(non_snake_case)]
#[verifier::when_used_as_spec(spec_get_unsolicited_response)]
pub fn GET_UNSOLICITED_RESPONSE() -> (r: Verb8)
    ensures
        r == Verb8(0xF0800),
{
    Verb8(0xF0800)
}
#[allow(non_snake_case)]
pub open spec fn spec_set_unsolicited_response() -> Verb8 {
    Verb8(0x70800)
}

#[allow(non_snake_case)]
#[verifier::when_used_as_spec(spec_set_unsolicited_response)]
pub fn SET_UNSOLICITED_RESPONSE() -> (r: Verb8)
    ensures
        r == Verb8(0x70800),
{
    Verb8(0x70800)
}
#[allow(non_snake_case)]
pub open spec fn spec_get_pin_sense() -> Verb8 {
    Verb8(0xF0900)
}

#[allow(non_snake_case)]
#[verifier::when_used_as_spec(spec_get_pin_sense)]
pub fn GET_PIN_SENSE() -> (r: Verb8)
    ensures
        r == Verb8(0xF0900),
{
    Verb8(0xF0900)
}
#[allow(non_snake_case)]
pub open spec fn spec_execute_pin_sense() -> Verb8 {
    Verb8(0x70900)
}

#[allow(non_snake_case)]
#[verifier::when_used_as_spec(spec_execute_pin_sense)]
pub fn EXECUTE_PIN_SENSE() -> (r: Verb8)
    ensures
        r == Verb8(0x70900),
{
    Verb8(0x70900)
}
#[allow(non_snake_case)]
pub open spec fn spec_get_eapd_btl() -> Verb8 {
    Verb8(0xF0C00)
}

#[allow(non_snake_case)]
#[verifier::when_used_as_spec(spec_get_eapd_btl)]
pub fn GET_EAPD_BTL() -> (r: Verb8)
    ensures
        r == Verb8(0xF0C00),
{
    Verb8(0xF0C00)
}
#[allow(non_snake_case)]
pub open spec fn spec_set_eapd_btl() -> Verb8 {
    Verb8(0x70C00)
}

#[allow(non_snake_case)]
#[verifier::when_used_as_spec(spec_set_eapd_btl)]
pub fn SET_EAPD_BTL() -> (r: Verb8)
    ensures
        r == Verb8(0x70C00),
{
    Verb8(0x70C00)
}

#[allow(non_snake_case)]
pub open spec fn spec_get_converter_format() -> Verb16 {
    Verb16(0xA0000)
}

#[allow(non_snake_case)]
#[verifier::when_used_as_spec(spec_get_converter_format)]
pub fn GET_CONVERTER_FORMAT() -> (r: Verb16)
    ensures
        r == Verb16(0xA0000),
{
    Verb16(0xA0000)
}
#[allow(non_snake_case)]
pub open spec fn spec_set_converter_format() -> Verb16 {
    Verb16(0x20000)
}

#[allow(non_snake_case)]
#[verifier::when_used_as_spec(spec_set_converter_format)]
pub fn SET_CONVERTER_FORMAT() -> (r: Verb16)
    ensures
        r == Verb16(0x20000),
{
    Verb16(0x20000)
}
#[allow(non_snake_case)]
pub open spec fn spec_get_amp_gain_mute() -> Verb16 {
    Verb16(0xB0000)
}

#[allow(non_snake_case)]
#[verifier::when_used_as_spec(spec_get_amp_gain_mute)]
pub fn GET_AMP_GAIN_MUTE() -> (r: Verb16)
    ensures
        r == Verb16(0xB0000),
{
    Verb16(0xB0000)
}
#[allow(non_snake_case)]
pub open spec fn spec_set_amp_gain_mute() -> Verb16 {
    Verb16(0x30000)
}

#[allow(non_snake_case)]
#[verifier::when_used_as_spec(spec_set_amp_gain_mute)]
pub fn SET_AMP_GAIN_MUTE() -> (r: Verb16)
    ensures
        r == Verb16(0x30000),
{
    Verb16(0x30000)
}

/// Node 0 of every codec: the Root Node.
pub const ROOT_NODE: u8 = 0;

/// Function Group Type value identifying an Audio Function Group.
pub const NODE_TYPE_AUDIO_FUNCTION_GROUP: u8 = 0x01;

/// The full 32-bit CORB entry addressed to `codec_addr`/`nid` carrying the
/// low 20 bits of `payload`.
pub open spec fn spec_command(codec_addr: u8, nid: u8, payload: u32) -> u32 {
    ((codec_addr as u32) << 28u32) | ((nid as u32) << 20u32) | (payload & 0xF_FFFF)
}

/// Builds a full 32-bit CORB entry addressed to `codec_addr`/`nid` carrying
/// the already-encoded 20-bit `payload` (from [`Verb8::payload`] or
/// [`Verb16::payload`]).
pub fn command(codec_addr: u8, nid: u8, payload: u32) -> (r: u32)
    ensures
        r == spec_command(codec_addr, nid, payload),
{
    ((codec_addr as u32) << 28) | ((nid as u32) << 20) | (payload & 0xF_FFFF)
}

/// A CORB entry for a codec address that fits the 4-bit address field keeps
/// the address, the node ID and the 20-bit payload in their own bit fields:
/// each can be read back unchanged.
pub proof fn lemma_command_fields(codec_addr: u8, nid: u8, payload: u32)
    requires
        codec_addr < 16,
    ensures
        spec_command(codec_addr, nid, payload) >> 28u32 == codec_addr as u32,
        (spec_command(codec_addr, nid, payload) >> 20u32) & 0xFF == nid as u32,
        spec_command(codec_addr, nid, payload) & 0xF_FFFF == payload & 0xF_FFFF,
{
    let c = codec_addr as u32;
    let n = nid as u32;
    assert(c < 16 && n < 256 ==> ((c << 28u32) | (n << 20u32) | (payload & 0xF_FFFF)) >> 28u32
        == c) by (bit_vector);
    assert(c < 16 && n < 256 ==> (((c << 28u32) | (n << 20u32) | (payload & 0xF_FFFF))
        >> 20u32) & 0xFF == n) by (bit_vector);
    assert(c < 16 && n < 256 ==> ((c << 28u32) | (n << 20u32) | (payload & 0xF_FFFF))
        & 0xF_FFFF == payload & 0xF_FFFF) by (bit_vector);
}

/// Widget `Type` field decoded from Audio Widget Capabilities bits 23:20.
#[derive(Debug, Clone, Copy, PartialEq, Eq, Structural)]
pub enum WidgetType {
    AudioOutput,
    AudioInput,
    Mixer,
    Selector,
    PinComplex,
    Power,
    VolumeKnob,
    BeepGenerator,
    Vendor,
    Reserved(u8),
}

impl WidgetType {
    pub open spec fn spec_decode(raw: u8) -> WidgetType {
        if raw == 0x0 {
            WidgetType::AudioOutput
        } else if raw == 0x1 {
            WidgetType::AudioInput
        } else if raw == 0x2 {
            WidgetType::Mixer
        } else if raw == 0x3 {
            WidgetType::Selector
        } else if raw == 0x4 {
            WidgetType::PinComplex
        } else if raw == 0x5 {
            WidgetType::Power
        } else if raw == 0x6 {
            WidgetType::VolumeKnob
        } else if raw == 0x7 {
            WidgetType::BeepGenerator
        } else if raw == 0xF {
            WidgetType::Vendor
        } else {
            WidgetType::Reserved(raw)
        }
    }

    pub fn decode(raw: u8) -> (r: Self)
        ensures
            r == Self::spec_decode(raw),
    {
        match raw {
            0x0 => Self::AudioOutput,
            0x1 => Self::AudioInput,
            0x2 => Self::Mixer,
            0x3 => Self::Selector,
            0x4 => Self::PinComplex,
            0x5 => Self::Power,
            0x6 => Self::VolumeKnob,
            0x7 => Self::BeepGenerator,
            0xF => Self::Vendor,
            other => Self::Reserved(other),
        }
    }
}

} // verus!
