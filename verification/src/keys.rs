//! Keystrokes as the UEFI simple text input protocol reports them: either a
//! printable UCS-2 character or a special key identified by its scan code.
use vstd::prelude::*;

verus! {

/// Scan code of the up-arrow key.
pub const SCAN_UP: u16 = 0x01;

/// Scan code of the down-arrow key.
pub const SCAN_DOWN: u16 = 0x02;

/// Scan code of the right-arrow key.
pub const SCAN_RIGHT: u16 = 0x03;

/// Scan code of the left-arrow key.
pub const SCAN_LEFT: u16 = 0x04;

/// Scan code of the escape key.
pub const SCAN_ESCAPE: u16 = 0x17;

/// The UCS-2 code of the space bar.
pub const CHAR_SPACE: u16 = 0x20;

/// The UCS-2 code that the Enter key reports.
pub const CHAR_ENTER: u16 = 0x0d;

/// One keystroke.
#[derive(Debug, Clone, Copy, PartialEq, Eq, Structural)]
pub enum Key {
    /// A key with a printable character, as its UCS-2 code unit.
    Printable(u16),
    /// A special key (arrows, function keys, escape), as its scan code.
    Special(u16),
}

} // verus!
