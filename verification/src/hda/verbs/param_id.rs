//! Parameter IDs for `GET_PARAMETER`.
use vstd::prelude::*;

verus! {

pub const VENDOR_ID: u8 = 0x00;
pub const SUBORDINATE_NODE_COUNT: u8 = 0x04;
pub const FUNCTION_GROUP_TYPE: u8 = 0x05;
pub const AUDIO_FG_CAPS: u8 = 0x08;
pub const AUDIO_WIDGET_CAPS: u8 = 0x09;
pub const SUPPORTED_PCM_SIZE_RATES: u8 = 0x0A;
pub const SUPPORTED_STREAM_FORMATS: u8 = 0x0B;
pub const PIN_CAPS: u8 = 0x0C;
pub const INPUT_AMP_CAPS: u8 = 0x0D;
pub const CONNECTION_LIST_LENGTH: u8 = 0x0E;
pub const SUPPORTED_POWER_STATES: u8 = 0x0F;
pub const OUTPUT_AMP_CAPS: u8 = 0x12;

} // verus!
