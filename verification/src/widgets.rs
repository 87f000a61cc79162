//! Reusable pieces of the text UI.
pub mod hex_dump;
