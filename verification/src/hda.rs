//! Platform-agnostic core of an Intel HD Audio (HDA) controller/codec driver:
//! register layout, verb encoding, the codec node model, and the controller's
//! command channel. Register and DMA access is supplied by a [`Platform`].
pub mod codec;
pub mod controller;
pub mod discovery;
pub mod format;
pub mod platform;
pub mod regs;
pub mod target;
pub mod verbs;

pub use controller::{Controller, Error};
pub use format::PcmFormat;
pub use platform::{DmaBuffer, Platform};
pub use target::{
    StreamPlan, Target, configure_and_play_output, find_output_target, unmute_output_at_zero_db,
};
