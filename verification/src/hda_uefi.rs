//! Finding and opening the Intel HD Audio controller under UEFI: which PCI
//! function is one, where its registers live, what its command register
//! must have set, and how a failed open is reported.
use vstd::prelude::*;

use crate::hda::controller::{bring_up_run, corb_init_writes, reset_writes, rirb_init_writes, spec_bring_up_outcome};
use crate::hda::{Controller, Error, Platform};

verus! {

/// PCI class of multimedia devices.
pub const HDA_CLASS: u8 = 0x04;

/// PCI subclass of HD Audio controllers.
pub const HDA_SUBCLASS: u8 = 0x03;

/// Command register bit 1 (Memory Space): lets the device answer memory
/// accesses.
pub const PCI_COMMAND_MEMORY_SPACE: u16 = 0x2;

/// Command register bit 2 (Bus Master): lets the device master DMA.
pub const PCI_COMMAND_BUS_MASTER: u16 = 0x4;

/// Why no controller could be opened.
#[derive(Debug, Clone, Copy, PartialEq, Eq, Structural)]
pub enum OpenError {
    /// No PCI function on bus 0 is an HD Audio controller.
    ControllerNotFound,
    /// The controller was found but would not come up.
    Driver(Error),
}

/// The function's class register (offset 8) names an HD Audio
/// controller: class in its top byte, subclass in the byte below.
pub open spec fn spec_is_hda(class_reg: u32) -> bool {
    ((class_reg >> 24u32) & 0xff) == HDA_CLASS && ((class_reg >> 16u32) & 0xff) == HDA_SUBCLASS
}

/// Whether the function with class register `class_reg` is an HD Audio
/// controller.
pub fn is_hda(class_reg: u32) -> (r: bool)
    ensures
        r == spec_is_hda(class_reg),
{
    ((class_reg >> 24) & 0xff) == HDA_CLASS as u32 && ((class_reg >> 16) & 0xff) == HDA_SUBCLASS as u32
}

/// BAR0 is a 64-bit memory BAR (type bits 1-2 are `10`), so BAR1 holds
/// the upper half of the address.
pub open spec fn spec_bar0_is_64bit(bar0: u32) -> bool {
    (bar0 >> 1u32) & 0x3 == 2
}

/// Whether BAR0 is a 64-bit BAR, whose upper half must be read from BAR1.
pub fn bar0_is_64bit(bar0: u32) -> (r: bool)
    ensures
        r == spec_bar0_is_64bit(bar0),
{
    (bar0 >> 1) & 0x3 == 2
}

/// The register base BAR0 (and, for a 64-bit BAR, BAR1) give: BAR0 with
/// its four flag bits cleared, and BAR1 as the upper 32 bits.
pub open spec fn spec_mmio_base(bar0: u32, bar1: u32) -> u64 {
    let low = (bar0 & 0xffff_fff0u32) as u64;
    if spec_bar0_is_64bit(bar0) {
        low | ((bar1 as u64) << 32u64)
    } else {
        low
    }
}

/// The controller's register base; `bar1` is only looked at for a 64-bit
/// BAR0.
pub fn mmio_base(bar0: u32, bar1: u32) -> (r: u64)
    ensures
        r == spec_mmio_base(bar0, bar1),
{
    let low = (bar0 & 0xffff_fff0) as u64;
    if bar0_is_64bit(bar0) {
        low | ((bar1 as u64) << 32u64)
    } else {
        low
    }
}

/// The command register value that enables memory space and bus
/// mastering on top of what `command` already enables.
pub fn enabled_command(command: u16) -> (r: u16)
    ensures
        r == command | PCI_COMMAND_MEMORY_SPACE | PCI_COMMAND_BUS_MASTER,
        r == command | 0x6,
        r & PCI_COMMAND_MEMORY_SPACE != 0,
        r & PCI_COMMAND_BUS_MASTER != 0,
        r & command == command,
{
    let r = command | PCI_COMMAND_MEMORY_SPACE | PCI_COMMAND_BUS_MASTER;
    assert(r & 0x2 != 0 && r & 0x4 != 0 && r & command == command && r == command | 0x6) by (bit_vector)
        requires
            r == command | 0x2u16 | 0x4u16,
    ;
    r
}

/// Brings up the controller on `platform`, the register window of the
/// controller found on the bus, or reports that none was found.
pub fn open_controller<P: Platform>(platform: Option<P>) -> (r: Result<Controller<P>, OpenError>)
    ensures
        platform is None <==> r == Err::<Controller<P>, OpenError>(OpenError::ControllerNotFound),
        r matches Err(OpenError::Driver(e)) ==> e == Error::ControllerResetTimeout || e == Error::RingSizeUnsupported,
        r matches Ok(c) ==> c.writes() == reset_writes() + corb_init_writes(c.corb().phys_addr)
            + rirb_init_writes(c.rirb().phys_addr) && c.exchanges().len() == 0,
        platform matches Some(p) ==> exists|
            first: Seq<u32>,
            second: Seq<u32>,
            entered: bool,
            left: bool,
            mid: P,
            reset: P,
            corb_size: u8,
            rirb_size: u8,
        |
            {
                &&& #[trigger] bring_up_run(p, first, second, entered, left, mid, reset, corb_size, rirb_size)
                &&& match r {
                    Ok(c) => spec_bring_up_outcome(left, corb_size, rirb_size) is Ok && c.came_up_from(
                        p,
                        first,
                        second,
                        entered,
                        corb_size,
                        rirb_size,
                    ),
                    Err(OpenError::Driver(e)) => spec_bring_up_outcome(left, corb_size, rirb_size) == Err::<(), Error>(e),
                    Err(OpenError::ControllerNotFound) => false,
                }
            },
{
    match platform {
        None => Err(OpenError::ControllerNotFound),
        Some(p) => match Controller::new(p) {
            Ok(c) => Ok(c),
            Err(e) => Err(OpenError::Driver(e)),
        },
    }
}

} // verus!
