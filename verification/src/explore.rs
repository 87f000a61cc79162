//! Decoders for what the firmware reports: the memory map, PCI functions,
//! ACPI tables, and UEFI variables.
pub mod acpi;
pub mod disks;
pub mod memmap;
pub mod pci;
pub mod protocols;
pub mod vars;
pub mod well_known_vars;
