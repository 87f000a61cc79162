//! Verified core of a UEFI system explorer: an Intel HD Audio driver, decoders
//! for firmware and bus structures, and the small pieces of UI and game logic
//! that sit on top of them.
pub mod console;
pub mod display;
pub mod explore;
pub mod game;
pub mod gop;
pub mod hda;
pub mod hda_uefi;
pub mod input;
pub mod keys;
pub mod screens;
pub mod sfx;
pub mod text;
pub mod widgets;
