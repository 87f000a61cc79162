//! What a PCI function's configuration space says about it.
use vstd::prelude::*;

use crate::text::{hex, push_hex, push_str};

verus! {

#[derive(Debug, Clone, Copy)]
pub struct PciDevice {
    pub bus: u8,
    pub device: u8,
    pub function: u8,
    pub vendor_id: u16,
    pub device_id: u16,
    pub class: u8,
    pub subclass: u8,
    pub prog_if: u8,
    pub revision: u8,
    /// Bits 0-6 identify the config space layout (0 = normal device, 1 =
    /// PCI-to-PCI bridge, 2 = CardBus bridge); bit 7 marks a multi-function
    /// device. Only header type 0 has the "6 general-purpose BARs" layout
    /// that [`Self::bars`] assumes.
    pub header_type: u8,
    /// Raw Base Address Registers 0-5 (config space offsets 0x10-0x24),
    /// meaningful only when `header_type & 0x7f == 0`.
    pub bars: [u32; 6],
}

/// The device-class guess for a class/subclass pair.
pub open spec fn spec_class_name(class: u8, subclass: u8) -> &'static str {
    if class == 0x01 && subclass == 0x01 {
        "IDE controller"
    } else if class == 0x01 && subclass == 0x06 {
        "SATA controller"
    } else if class == 0x01 && subclass == 0x08 {
        "NVMe controller"
    } else if class == 0x01 {
        "Storage controller"
    } else if class == 0x02 && subclass == 0x00 {
        "Ethernet controller"
    } else if class == 0x02 {
        "Network controller"
    } else if class == 0x03 {
        "Display controller"
    } else if class == 0x04 {
        "Multimedia controller"
    } else if class == 0x06 && subclass == 0x00 {
        "Host bridge"
    } else if class == 0x06 && subclass == 0x01 {
        "ISA bridge"
    } else if class == 0x06 && subclass == 0x04 {
        "PCI-to-PCI bridge"
    } else if class == 0x06 {
        "Bridge"
    } else if class == 0x0c && subclass == 0x03 {
        "USB controller"
    } else if class == 0x0c && subclass == 0x05 {
        "SMBus controller"
    } else if class == 0x0c {
        "Serial bus controller"
    } else {
        "Unknown"
    }
}

/// Each class name stands for exactly the class codes the PCI class-code
/// table gives it: the named subclasses (IDE, SATA and NVMe storage,
/// Ethernet, host/ISA/PCI-to-PCI bridges, USB, SMBus) for their own
/// class/subclass pair only, each class's general name for its other
/// subclasses, and "Unknown" for every other class. No two entries share a
/// name.
pub proof fn lemma_class_names(class: u8, subclass: u8)
    ensures
        (spec_class_name(class, subclass)@ == "IDE controller"@) <==> (class == 0x01 && subclass == 0x01),
        (spec_class_name(class, subclass)@ == "SATA controller"@) <==> (class == 0x01 && subclass == 0x06),
        (spec_class_name(class, subclass)@ == "NVMe controller"@) <==> (class == 0x01 && subclass == 0x08),
        (spec_class_name(class, subclass)@ == "Storage controller"@) <==> (class == 0x01 && subclass != 0x01 && subclass != 0x06 && subclass != 0x08),
        (spec_class_name(class, subclass)@ == "Ethernet controller"@) <==> (class == 0x02 && subclass == 0x00),
        (spec_class_name(class, subclass)@ == "Network controller"@) <==> (class == 0x02 && subclass != 0x00),
        (spec_class_name(class, subclass)@ == "Display controller"@) <==> (class == 0x03),
        (spec_class_name(class, subclass)@ == "Multimedia controller"@) <==> (class == 0x04),
        (spec_class_name(class, subclass)@ == "Host bridge"@) <==> (class == 0x06 && subclass == 0x00),
        (spec_class_name(class, subclass)@ == "ISA bridge"@) <==> (class == 0x06 && subclass == 0x01),
        (spec_class_name(class, subclass)@ == "PCI-to-PCI bridge"@) <==> (class == 0x06 && subclass == 0x04),
        (spec_class_name(class, subclass)@ == "Bridge"@) <==> (class == 0x06 && subclass != 0x00 && subclass != 0x01 && subclass != 0x04),
        (spec_class_name(class, subclass)@ == "USB controller"@) <==> (class == 0x0c && subclass == 0x03),
        (spec_class_name(class, subclass)@ == "SMBus controller"@) <==> (class == 0x0c && subclass == 0x05),
        (spec_class_name(class, subclass)@ == "Serial bus controller"@) <==> (class == 0x0c && subclass != 0x03 && subclass != 0x05),
        (spec_class_name(class, subclass)@ == "Unknown"@) <==> (class != 0x01 && class != 0x02 && class != 0x03 && class != 0x04 && class != 0x06 && class != 0x0c),
{
    reveal_strlit("IDE controller");
    reveal_strlit("SATA controller");
    reveal_strlit("NVMe controller");
    reveal_strlit("Storage controller");
    reveal_strlit("Ethernet controller");
    reveal_strlit("Network controller");
    reveal_strlit("Display controller");
    reveal_strlit("Multimedia controller");
    reveal_strlit("Host bridge");
    reveal_strlit("ISA bridge");
    reveal_strlit("PCI-to-PCI bridge");
    reveal_strlit("Bridge");
    reveal_strlit("USB controller");
    reveal_strlit("SMBus controller");
    reveal_strlit("Serial bus controller");
    reveal_strlit("Unknown");
    assert("IDE controller"@[0] == 'I' && "IDE controller"@[1] == 'D');
    assert("SATA controller"@[0] == 'S' && "SATA controller"@[1] == 'A');
    assert("NVMe controller"@[0] == 'N' && "NVMe controller"@[1] == 'V');
    assert("Storage controller"@[0] == 'S' && "Storage controller"@[1] == 't');
    assert("Ethernet controller"@[0] == 'E' && "Ethernet controller"@[1] == 't');
    assert("Network controller"@[0] == 'N' && "Network controller"@[1] == 'e');
    assert("Display controller"@[0] == 'D' && "Display controller"@[1] == 'i');
    assert("Multimedia controller"@[0] == 'M' && "Multimedia controller"@[1] == 'u');
    assert("Host bridge"@[0] == 'H' && "Host bridge"@[1] == 'o');
    assert("ISA bridge"@[0] == 'I' && "ISA bridge"@[1] == 'S');
    assert("PCI-to-PCI bridge"@[0] == 'P' && "PCI-to-PCI bridge"@[1] == 'C');
    assert("Bridge"@[0] == 'B' && "Bridge"@[1] == 'r');
    assert("USB controller"@[0] == 'U' && "USB controller"@[1] == 'S');
    assert("SMBus controller"@[0] == 'S' && "SMBus controller"@[1] == 'M');
    assert("Serial bus controller"@[0] == 'S' && "Serial bus controller"@[1] == 'e');
    assert("Unknown"@[0] == 'U' && "Unknown"@[1] == 'n');
}

/// The description of a BAR's raw value: an I/O BAR's base, or a memory
/// BAR's width, prefetchability and base.
pub open spec fn bar_text(raw: u32) -> Seq<char> {
    if raw & 0x1 == 1 {
        "I/O, base 0x"@ + hex((raw & !0x3u32) as nat, 4)
    } else {
        let kind = if (raw >> 1u32) & 0x3 == 0 {
            "32-bit"@
        } else if (raw >> 1u32) & 0x3 == 2 {
            "64-bit"@
        } else {
            "reserved-width"@
        };
        let prefetchable = if raw & 0x8 != 0 {
            "prefetchable"@
        } else {
            "non-prefetchable"@
        };
        "Memory, "@ + kind + ", "@ + prefetchable + ", base 0x"@ + hex((raw & !0xFu32) as nat, 8)
    }
}

impl PciDevice {
    /// BAR `index` decodes to something: the device has the type-0 layout,
    /// `index` names one of its six BARs, and that BAR is in use.
    pub open spec fn bar_in_use(&self, index: usize) -> bool {
        self.header_type & 0x7f == 0 && index < 6 && self.bars@[index as int] != 0
    }

    /// A short human-readable guess at the device class, based on the PCI
    /// class code. Not exhaustive -- just the common ones you'd expect to
    /// see in a VM or on a typical PC.
    pub fn class_name(&self) -> (r: &'static str)
        ensures
            r == spec_class_name(self.class, self.subclass),
    {
        match (self.class, self.subclass) {
            (0x01, 0x01) => "IDE controller",
            (0x01, 0x06) => "SATA controller",
            (0x01, 0x08) => "NVMe controller",
            (0x01, _) => "Storage controller",
            (0x02, 0x00) => "Ethernet controller",
            (0x02, _) => "Network controller",
            (0x03, _) => "Display controller",
            (0x04, _) => "Multimedia controller",
            (0x06, 0x00) => "Host bridge",
            (0x06, 0x01) => "ISA bridge",
            (0x06, 0x04) => "PCI-to-PCI bridge",
            (0x06, _) => "Bridge",
            (0x0c, 0x03) => "USB controller",
            (0x0c, 0x05) => "SMBus controller",
            (0x0c, _) => "Serial bus controller",
            _ => "Unknown",
        }
    }

    /// A human-readable decode of BAR `index` (0-5), per the PCI spec's Base
    /// Address Register format. Returns `None` if the register is unused
    /// (value 0) or this device doesn't have the type-0 BAR layout.
    pub fn decode_bar(&self, index: usize) -> (r: Option<String>)
        ensures
            r is Some <==> self.bar_in_use(index),
            r matches Some(s) ==> s@ == bar_text(self.bars@[index as int]),
    {
        if self.header_type & 0x7f != 0 {
            return None;
        }
        if index >= 6 {
            return None;
        }
        let raw = self.bars[index];
        if raw == 0 {
            return None;
        }
        let mut text = String::new();
        if raw & 0x1 == 1 {
            push_str(&mut text, "I/O, base 0x");
            push_hex(&mut text, (raw & !0x3) as u64, 4);
        } else {
            let kind = match (raw >> 1) & 0x3 {
                0 => "32-bit",
                2 => "64-bit",
                _ => "reserved-width",
            };
            let prefetchable = if raw & 0x8 != 0 {
                "prefetchable"
            } else {
                "non-prefetchable"
            };
            push_str(&mut text, "Memory, ");
            push_str(&mut text, kind);
            push_str(&mut text, ", ");
            push_str(&mut text, prefetchable);
            push_str(&mut text, ", base 0x");
            push_hex(&mut text, (raw & !0xF) as u64, 8);
        }
        Some(text)
    }
}

/// One device/function position on a bus.
#[derive(Debug, Clone, Copy, PartialEq, Eq, Structural)]
pub struct PciSlot {
    pub device: u8,
    pub function: u8,
}

/// Devices per bus.
pub const DEVICES_PER_BUS: u8 = 32;

/// Functions per device.
pub const FUNCTIONS_PER_DEVICE: u8 = 8;

/// Vendor id read from a slot with nothing in it.
pub const NO_VENDOR: u16 = 0xffff;

/// What probing a slot found.
#[derive(Debug, Clone, Copy, PartialEq, Eq, Structural)]
pub enum SlotOutcome {
    /// The id register could not be read.
    Unreadable,
    /// No function answers here.
    Empty,
    /// A function answered; `multi_function` is bit 7 of its header type.
    Present { multi_function: bool },
}

/// Position of a slot in scan order.
pub open spec fn slot_index(slot: PciSlot) -> int {
    slot.device * 8 + slot.function
}

/// The slot a scan probes after `slot`: the next function of the same
/// device, unless this was the last function, or function 0 was empty or a
/// single-function device, in which case function 0 of the next device;
/// `None` after the last device.
pub open spec fn spec_next_slot(slot: PciSlot, outcome: SlotOutcome) -> Option<PciSlot> {
    let skip_device = slot.function == 0 && match outcome {
        SlotOutcome::Empty => true,
        SlotOutcome::Present { multi_function } => !multi_function,
        SlotOutcome::Unreadable => false,
    };
    if !skip_device && slot.function + 1 < FUNCTIONS_PER_DEVICE {
        Some(PciSlot { device: slot.device, function: (slot.function + 1) as u8 })
    } else if slot.device + 1 < DEVICES_PER_BUS {
        Some(PciSlot { device: (slot.device + 1) as u8, function: 0 })
    } else {
        None
    }
}

/// The walk over bus 0 that both the PCI explorer and the audio driver
/// make: every device, and every function of a multi-function device.
/// The caller probes [`PciScan::current`], reports what it found with
/// [`PciScan::advance`], and stops when there is no current slot.
pub struct PciScan {
    slot: Option<PciSlot>,
}

impl PciScan {
    /// The slot to probe next, if any.
    pub closed spec fn at(self) -> Option<PciSlot> {
        self.slot
    }

    /// A scan starting at device 0, function 0.
    pub fn new() -> (r: Self)
        ensures
            r.at() == Some(PciSlot { device: 0, function: 0 }),
    {
        PciScan { slot: Some(PciSlot { device: 0, function: 0 }) }
    }

    /// The slot to probe next, or `None` once the bus is done.
    pub fn current(&self) -> (r: Option<PciSlot>)
        ensures
            r == self.at(),
    {
        self.slot
    }

    /// Records what probing the current slot found and moves on.
    pub fn advance(&mut self, outcome: SlotOutcome)
        requires
            old(self).at() is Some,
            old(self).at()->0.device < DEVICES_PER_BUS,
            old(self).at()->0.function < FUNCTIONS_PER_DEVICE,
        ensures
            final(self).at() == spec_next_slot(old(self).at()->0, outcome),
    {
        let slot = match self.slot {
            Some(s) => s,
            None => return,
        };
        let skip_device = slot.function == 0 && match outcome {
            SlotOutcome::Empty => true,
            SlotOutcome::Present { multi_function } => !multi_function,
            SlotOutcome::Unreadable => false,
        };
        self.slot = if !skip_device && slot.function + 1 < FUNCTIONS_PER_DEVICE {
            Some(PciSlot { device: slot.device, function: slot.function + 1 })
        } else if slot.device + 1 < DEVICES_PER_BUS {
            Some(PciSlot { device: slot.device + 1, function: 0 })
        } else {
            None
        };
    }
}

/// Every slot a scan visits lies on the bus, and each step moves strictly
/// forward in scan order, so a scan visits each slot at most once and ends
/// after at most 256 probes.
pub proof fn lemma_scan_moves_forward(slot: PciSlot, outcome: SlotOutcome)
    requires
        slot.device < DEVICES_PER_BUS,
        slot.function < FUNCTIONS_PER_DEVICE,
    ensures
        spec_next_slot(slot, outcome) matches Some(next) ==> {
            &&& next.device < DEVICES_PER_BUS
            &&& next.function < FUNCTIONS_PER_DEVICE
            &&& slot_index(next) > slot_index(slot)
            &&& slot_index(next) < 256
        },
{
}

/// A single-function device is probed at function 0 only, and an empty
/// function 0 ends the device: the scan goes on with the next device.
pub proof fn lemma_single_function_skipped(slot: PciSlot, outcome: SlotOutcome)
    requires
        slot.device + 1 < DEVICES_PER_BUS,
        slot.function == 0,
        outcome == SlotOutcome::Empty || outcome == (SlotOutcome::Present { multi_function: false }),
    ensures
        spec_next_slot(slot, outcome) == Some(PciSlot { device: (slot.device + 1) as u8, function: 0 }),
{
}

/// Whether what function 0 of a device showed ends the device: nothing
/// there, or a single-function device.
pub open spec fn ends_device(outcome: SlotOutcome) -> bool {
    match outcome {
        SlotOutcome::Empty => true,
        SlotOutcome::Present { multi_function } => !multi_function,
        SlotOutcome::Unreadable => false,
    }
}

/// The slots a scan probes, in order, starting at `slot`, when probing a
/// slot `s` finds `config(s)`.
pub open spec fn scan_from(config: spec_fn(PciSlot) -> SlotOutcome, slot: PciSlot) -> Seq<PciSlot>
    decreases 256 - slot_index(slot),
{
    if slot.device < DEVICES_PER_BUS && slot.function < FUNCTIONS_PER_DEVICE {
        match spec_next_slot(slot, config(slot)) {
            Some(next) => seq![slot] + scan_from(config, next),
            None => seq![slot],
        }
    } else {
        Seq::empty()
    }
}

/// The slots a scan that starts at `start` reaches: every slot on the bus
/// from `start` on whose function is 0, or lies on the device it started
/// partway through, or on a device whose function 0 did not end it.
pub open spec fn scan_reaches(config: spec_fn(PciSlot) -> SlotOutcome, start: PciSlot, s: PciSlot) -> bool {
    &&& s.device < DEVICES_PER_BUS
    &&& s.function < FUNCTIONS_PER_DEVICE
    &&& slot_index(start) <= slot_index(s)
    &&& (s.function == 0 || (s.device == start.device && start.function > 0)
        || !ends_device(config(PciSlot { device: s.device, function: 0 })))
}

proof fn lemma_scan_from_reaches(config: spec_fn(PciSlot) -> SlotOutcome, start: PciSlot, s: PciSlot)
    requires
        start.device < DEVICES_PER_BUS,
        start.function < FUNCTIONS_PER_DEVICE,
    ensures
        scan_from(config, start).contains(s) <==> scan_reaches(config, start, s),
        forall|i: int, j: int| 0 <= i < j < scan_from(config, start).len()
            ==> slot_index(#[trigger] scan_from(config, start)[i]) < slot_index(#[trigger] scan_from(config, start)[j]),
        scan_from(config, start).len() > 0 && scan_from(config, start)[0] == start,
    decreases 256 - slot_index(start),
{
    let trace = scan_from(config, start);
    lemma_scan_moves_forward(start, config(start));
    match spec_next_slot(start, config(start)) {
        Some(next) => {
            lemma_scan_from_reaches(config, next, s);
            let rest = scan_from(config, next);
            assert(trace == seq![start] + rest);
            assert(trace[0] == start);
            assert(scan_reaches(config, start, s) <==> (s == start || scan_reaches(config, next, s))) by {
                if s.device == start.device && s.function == start.function {
                    assert(s == start);
                }
                if start.function == 0 {
                    assert(PciSlot { device: start.device, function: 0 } == start);
                }
            }
            if rest.contains(s) {
                let k = choose|k: int| 0 <= k < rest.len() && rest[k] == s;
                assert(trace[k + 1] == s);
            }
            if trace.contains(s) {
                let k = choose|k: int| 0 <= k < trace.len() && trace[k] == s;
                if k > 0 {
                    assert(rest[k - 1] == s);
                }
            }
            assert forall|i: int, j: int| 0 <= i < j < trace.len()
                implies slot_index(#[trigger] trace[i]) < slot_index(#[trigger] trace[j]) by {
                if i > 0 {
                    assert(trace[i] == rest[i - 1]);
                }
                assert(trace[j] == rest[j - 1]);
                lemma_scan_from_reaches(config, next, rest[j - 1]);
                assert(rest.contains(rest[j - 1]));
            }
        },
        None => {
            assert(trace == seq![start]);
            assert(trace[0] == start);
            if trace.contains(s) {
                assert(trace[0] == s);
            }
            if scan_reaches(config, start, s) {
                if start.function == 0 {
                    assert(PciSlot { device: start.device, function: 0 } == start);
                }
                assert(s.device == start.device && s.function == start.function);
                assert(s == start);
            }
        },
    }
}

/// A scan of the bus, fed what each slot holds, probes function 0 of every
/// device and functions 1 to 7 exactly of the devices whose function 0 did
/// not show an empty slot or a single-function device; it probes them in
/// scan order, each slot once.
pub proof fn lemma_bus_scan(config: spec_fn(PciSlot) -> SlotOutcome)
    ensures
        forall|s: PciSlot| #[trigger] scan_from(config, PciSlot { device: 0, function: 0 }).contains(s) <==> {
            &&& s.device < DEVICES_PER_BUS
            &&& s.function < FUNCTIONS_PER_DEVICE
            &&& (s.function == 0 || !ends_device(config(PciSlot { device: s.device, function: 0 })))
        },
        forall|i: int, j: int| 0 <= i < j < scan_from(config, PciSlot { device: 0, function: 0 }).len()
            ==> slot_index(#[trigger] scan_from(config, PciSlot { device: 0, function: 0 })[i])
                < slot_index(#[trigger] scan_from(config, PciSlot { device: 0, function: 0 })[j]),
{
    let start = PciSlot { device: 0, function: 0 };
    assert forall|s: PciSlot| #[trigger] scan_from(config, start).contains(s) <==> {
        &&& s.device < DEVICES_PER_BUS
        &&& s.function < FUNCTIONS_PER_DEVICE
        &&& (s.function == 0 || !ends_device(config(PciSlot { device: s.device, function: 0 })))
    } by {
        lemma_scan_from_reaches(config, start, s);
    }
    lemma_scan_from_reaches(config, start, start);
}

/// Bits 0-15 of the id register: the vendor id.
pub open spec fn vendor_of(id_reg: u32) -> u16 {
    (id_reg & 0xffff) as u16
}

/// What a slot's id and header-type registers say: empty when the vendor
/// id is all ones, otherwise a function whose multi-function flag is bit 7
/// of the header type (bits 16-23 of the header register).
pub open spec fn spec_slot_outcome(id_reg: Option<u32>, header_reg: u32) -> SlotOutcome {
    match id_reg {
        None => SlotOutcome::Unreadable,
        Some(id) => if vendor_of(id) == NO_VENDOR {
            SlotOutcome::Empty
        } else {
            SlotOutcome::Present { multi_function: ((header_reg >> 16u32) & 0x80) != 0 }
        },
    }
}

/// Classifies a probed slot from its id register (if it could be read)
/// and its header-type register.
pub fn slot_outcome(id_reg: Option<u32>, header_reg: u32) -> (r: SlotOutcome)
    ensures
        r == spec_slot_outcome(id_reg, header_reg),
{
    match id_reg {
        None => SlotOutcome::Unreadable,
        Some(id) => if (id & 0xffff) as u16 == NO_VENDOR {
            SlotOutcome::Empty
        } else {
            SlotOutcome::Present { multi_function: ((header_reg >> 16) & 0x80) != 0 }
        },
    }
}

/// The header type of a function: bits 16-23 of its header register.
pub open spec fn header_type_of(header_reg: u32) -> u8 {
    ((header_reg >> 16u32) & 0xff) as u8
}

/// The function's BARs are worth reading: it has the type-0 header layout.
pub open spec fn has_bars(header_reg: u32) -> bool {
    header_type_of(header_reg) & 0x7f == 0
}

/// Whether the function with header register `header_reg` has the
/// type-0 layout whose six BARs are read.
pub fn has_bar_layout(header_reg: u32) -> (r: bool)
    ensures
        r == has_bars(header_reg),
{
    ((header_reg >> 16) & 0xff) as u8 & 0x7f == 0
}

impl PciDevice {
    /// The device described by the registers read at `bus`/`slot`: ids
    /// from the id register (offset 0), revision, programming interface,
    /// subclass and class from the bytes of the class register (offset 8),
    /// header type from the header register (offset 0xc), and the six BARs
    /// as read when the header has the type-0 layout, all zero otherwise.
    pub fn from_config(bus: u8, slot: PciSlot, id_reg: u32, class_reg: u32, header_reg: u32, bars: [u32; 6]) -> (r: Self)
        ensures
            r.bus == bus,
            r.device == slot.device,
            r.function == slot.function,
            r.vendor_id == vendor_of(id_reg),
            r.device_id == (id_reg >> 16u32) as u16,
            r.revision == (class_reg & 0xff) as u8,
            r.prog_if == ((class_reg >> 8u32) & 0xff) as u8,
            r.subclass == ((class_reg >> 16u32) & 0xff) as u8,
            r.class == ((class_reg >> 24u32) & 0xff) as u8,
            r.header_type == header_type_of(header_reg),
            r.bars@ == if has_bars(header_reg) { bars@ } else { seq![0u32, 0, 0, 0, 0, 0] },
    {
        let bars = if has_bar_layout(header_reg) { bars } else { [0u32; 6] };
        PciDevice {
            bus,
            device: slot.device,
            function: slot.function,
            vendor_id: (id_reg & 0xffff) as u16,
            device_id: (id_reg >> 16) as u16,
            class: ((class_reg >> 24) & 0xff) as u8,
            subclass: ((class_reg >> 16) & 0xff) as u8,
            prog_if: ((class_reg >> 8) & 0xff) as u8,
            revision: (class_reg & 0xff) as u8,
            header_type: ((header_reg >> 16) & 0xff) as u8,
            bars,
        }
    }
}

} // verus!
